//! How a pass moves over the pieces of an expression: single characters first, then
//! runs of spaces, literals, tokens, and operands with their operators.

use vstd::prelude::*;
use crate::error::{EvalError, Halted, Missing};
use crate::evaluator::{
    evaluate, join, lemma_run_end, lemma_run_step, resolve, run, step, State,
};
use crate::operator::Operator;
use crate::reals::Fact;
use crate::type_enum::{Type, Value};

verus! {

/// A character that belongs to a literal wherever it stands: it is no operator, no
/// parenthesis and no space.
pub open spec fn plain(c: char) -> bool {
    Operator::of_char(c) is None && c != '(' && c != ')' && c != ' '
}

/// An operand token: one or more plain characters, after at most one `-`.
pub open spec fn is_token(t: Seq<char>) -> bool {
    &&& t.len() > 0
    &&& plain(t.last())
    &&& t[0] == '-' || plain(t[0])
    &&& forall|k: int| 1 <= k < t.len() ==> plain(#[trigger] t[k])
}

/// The text `t` stands in `s` at position `i`.
pub open spec fn stands_at(s: Seq<char>, i: int, t: Seq<char>) -> bool {
    &&& 0 <= i
    &&& i + t.len() <= s.len()
    &&& forall|k: int| 0 <= k < t.len() ==> s[i + k] == #[trigger] t[k]
}

/// A run of `count` spaces.
pub open spec fn spaces(count: nat) -> Seq<char> {
    Seq::new(count, |k: int| ' ')
}

/// In `s` at position `i` stand a token, `before` spaces, an operator and `after`
/// spaces.
pub open spec fn operand_at(
    s: Seq<char>,
    i: int,
    t: Seq<char>,
    before: nat,
    operator: Operator,
    after: nat,
) -> bool {
    &&& stands_at(s, i, t)
    &&& stands_at(s, i + t.len(), spaces(before))
    &&& stands_at(s, i + t.len() + before, seq![operator.symbol_of()])
    &&& stands_at(s, i + t.len() + before + 1, spaces(after))
}

/// The operator need not wait for the rest of the expression: it is `+` or `-`, or
/// no `+` or `-` waits.
pub open spec fn joins_at_once(operator: Operator, st: State) -> bool {
    !(operator.is_tight() && st.last_operator() is Some && !st.last_operator()->0.is_tight())
}

/// Outside a group, a plain character joins the literal that is being read.
pub proof fn lemma_plain(
    s: Seq<char>,
    i: int,
    st: State,
    env: Map<Seq<char>, Type>,
    facts: Seq<Fact>,
)
    requires
        0 <= i < s.len(),
        plain(s[i]),
        st.depth == 0,
    ensures
        run(s, i, st, env, facts) == run(
            s,
            i + 1,
            State { buffer: st.buffer.push(s[i]), expected: true, ..st },
            env,
            facts,
        ),
{
    reveal(step);
    lemma_run_step(s, i, st, env, facts);
}

/// Outside a group, a space changes nothing.
pub proof fn lemma_space(
    s: Seq<char>,
    i: int,
    st: State,
    env: Map<Seq<char>, Type>,
    facts: Seq<Fact>,
)
    requires
        0 <= i < s.len(),
        s[i] == ' ',
        st.depth == 0,
    ensures
        run(s, i, st, env, facts) == run(s, i + 1, st, env, facts),
{
    reveal(step);
    lemma_run_step(s, i, st, env, facts);
}

/// Where an operand is due, a minus joins the literal that is being read.
pub proof fn lemma_minus(
    s: Seq<char>,
    i: int,
    st: State,
    env: Map<Seq<char>, Type>,
    facts: Seq<Fact>,
)
    requires
        0 <= i < s.len(),
        s[i] == '-',
        st.depth == 0,
        !st.expected,
    ensures
        run(s, i, st, env, facts) == run(
            s,
            i + 1,
            State { buffer: st.buffer.push('-'), ..st },
            env,
            facts,
        ),
{
    reveal(step);
    lemma_run_step(s, i, st, env, facts);
}

/// Outside a group, `(` opens one.
pub proof fn lemma_open(
    s: Seq<char>,
    i: int,
    st: State,
    env: Map<Seq<char>, Type>,
    facts: Seq<Fact>,
)
    requires
        0 <= i < s.len(),
        s[i] == '(',
        st.depth == 0,
    ensures
        run(s, i, st, env, facts) == run(
            s,
            i + 1,
            State { depth: 1, opened: i as nat, ..st },
            env,
            facts,
        ),
{
    reveal(step);
    lemma_run_step(s, i, st, env, facts);
}

/// Inside a group, a character other than a parenthesis is passed over.
pub proof fn lemma_passed_over(
    s: Seq<char>,
    i: int,
    st: State,
    env: Map<Seq<char>, Type>,
    facts: Seq<Fact>,
)
    requires
        0 <= i < s.len(),
        s[i] != '(',
        s[i] != ')',
        st.depth > 0,
    ensures
        run(s, i, st, env, facts) == run(s, i + 1, st, env, facts),
{
    reveal(step);
    lemma_run_step(s, i, st, env, facts);
}

/// Inside a group, `(` opens a group within it.
pub proof fn lemma_deeper(
    s: Seq<char>,
    i: int,
    st: State,
    env: Map<Seq<char>, Type>,
    facts: Seq<Fact>,
)
    requires
        0 <= i < s.len(),
        s[i] == '(',
        st.depth > 0,
    ensures
        run(s, i, st, env, facts) == run(
            s,
            i + 1,
            State { depth: st.depth + 1, ..st },
            env,
            facts,
        ),
{
    reveal(step);
    lemma_run_step(s, i, st, env, facts);
}

/// Inside a group within a group, `)` closes the inner one.
pub proof fn lemma_shallower(
    s: Seq<char>,
    i: int,
    st: State,
    env: Map<Seq<char>, Type>,
    facts: Seq<Fact>,
)
    requires
        0 <= i < s.len(),
        s[i] == ')',
        st.depth > 1,
    ensures
        run(s, i, st, env, facts) == run(
            s,
            i + 1,
            State { depth: (st.depth - 1) as nat, ..st },
            env,
            facts,
        ),
{
    reveal(step);
    lemma_run_step(s, i, st, env, facts);
}

/// The `)` that closes an empty outermost group changes nothing else.
pub proof fn lemma_close_empty(
    s: Seq<char>,
    i: int,
    st: State,
    env: Map<Seq<char>, Type>,
    facts: Seq<Fact>,
)
    requires
        0 <= i < s.len(),
        s[i] == ')',
        st.depth == 1,
        i - st.opened <= 1,
    ensures
        run(s, i, st, env, facts) == run(s, i + 1, State { depth: 0, ..st }, env, facts),
{
    reveal(step);
    lemma_run_step(s, i, st, env, facts);
}

/// The `)` that closes the outermost group makes the value of the group's content the
/// operand read last; where the content has no value, neither has the expression.
pub proof fn lemma_close(
    s: Seq<char>,
    i: int,
    st: State,
    env: Map<Seq<char>, Type>,
    facts: Seq<Fact>,
)
    requires
        0 <= i < s.len(),
        s[i] == ')',
        st.depth == 1,
        st.opened + 1 < i,
    ensures
        run(s, i, st, env, facts) == match evaluate(
            s.subrange(st.opened as int + 1, i),
            env,
            facts,
        ) {
            Err(halt) => Err(halt),
            Ok(value) => run(
                s,
                i + 1,
                State { depth: 0, operand: Some(value), expected: true, ..st },
                env,
                facts,
            ),
        },
{
    reveal(step);
    lemma_run_step(s, i, st, env, facts);
}

/// Where an operator is due and a token is in the buffer, an operator that need not
/// wait for the rest of the expression resolves the token, joins its value to what
/// was accumulated, and waits in turn.
pub proof fn lemma_operator(
    s: Seq<char>,
    i: int,
    operator: Operator,
    st: State,
    env: Map<Seq<char>, Type>,
    facts: Seq<Fact>,
)
    requires
        0 <= i < s.len(),
        s[i] == operator.symbol_of(),
        st.depth == 0,
        st.expected,
        st.buffer.len() > 0,
        joins_at_once(operator, st),
    ensures
        run(s, i, st, env, facts) == match resolve(st.buffer, env, facts) {
            Err(halt) => Err(halt),
            Ok(right) => match join(st.pending, right, facts) {
                Err(halt) => Err(halt),
                Ok(total) => run(
                    s,
                    i + 1,
                    State {
                        buffer: Seq::empty(),
                        operand: Some(right),
                        pending: Some((total, operator)),
                        expected: false,
                        ..st
                    },
                    env,
                    facts,
                ),
            },
        },
{
    reveal(step);
    lemma_run_step(s, i, st, env, facts);
}

/// Where an operator is due and the buffer is empty, an operator that need not wait
/// for the rest of the expression joins the operand read last to what was
/// accumulated, and waits in turn.
pub proof fn lemma_operator_after_group(
    s: Seq<char>,
    i: int,
    operator: Operator,
    st: State,
    env: Map<Seq<char>, Type>,
    facts: Seq<Fact>,
)
    requires
        0 <= i < s.len(),
        s[i] == operator.symbol_of(),
        st.depth == 0,
        st.expected,
        st.buffer.len() == 0,
        st.operand is Some,
        joins_at_once(operator, st),
    ensures
        run(s, i, st, env, facts) == match join(st.pending, st.operand->0, facts) {
            Err(halt) => Err(halt),
            Ok(total) => run(
                s,
                i + 1,
                State {
                    buffer: Seq::empty(),
                    pending: Some((total, operator)),
                    expected: false,
                    ..st
                },
                env,
                facts,
            ),
        },
{
    reveal(step);
    lemma_run_step(s, i, st, env, facts);
}

/// Where `*`, `/` or `%` follows a token whose left neighbour is `+` or `-`, the rest
/// of the expression is evaluated first, starting from the token's value and that
/// operator, and its value joins what was accumulated.
pub proof fn lemma_tighter(
    s: Seq<char>,
    i: int,
    operator: Operator,
    st: State,
    env: Map<Seq<char>, Type>,
    facts: Seq<Fact>,
)
    requires
        0 <= i < s.len(),
        s[i] == operator.symbol_of(),
        st.depth == 0,
        st.expected,
        st.buffer.len() > 0,
        !joins_at_once(operator, st),
    ensures
        run(s, i, st, env, facts) == match resolve(st.buffer, env, facts) {
            Err(halt) => Err(halt),
            Ok(right) => match run(s, i + 1, State::resumed(right, operator), env, facts) {
                Err(halt) => Err(halt),
                Ok(rest) => join(st.pending, rest, facts),
            },
        },
{
    reveal(step);
    lemma_run_step(s, i, st, env, facts);
}

/// Where `*`, `/` or `%` follows a group whose left neighbour is `+` or `-`, the rest
/// of the expression is evaluated first, starting from the group's value and that
/// operator, and its value joins what was accumulated.
pub proof fn lemma_tighter_after_group(
    s: Seq<char>,
    i: int,
    operator: Operator,
    st: State,
    env: Map<Seq<char>, Type>,
    facts: Seq<Fact>,
)
    requires
        0 <= i < s.len(),
        s[i] == operator.symbol_of(),
        st.depth == 0,
        st.expected,
        st.buffer.len() == 0,
        st.operand is Some,
        !joins_at_once(operator, st),
    ensures
        run(s, i, st, env, facts) == match run(
            s,
            i + 1,
            State::resumed(st.operand->0, operator),
            env,
            facts,
        ) {
            Err(halt) => Err(halt),
            Ok(rest) => join(st.pending, rest, facts),
        },
{
    reveal(step);
    lemma_run_step(s, i, st, env, facts);
}

/// Where an operand is due, an operator other than `-` is an error.
pub proof fn lemma_unexpected(
    s: Seq<char>,
    i: int,
    operator: Operator,
    st: State,
    env: Map<Seq<char>, Type>,
    facts: Seq<Fact>,
)
    requires
        0 <= i < s.len(),
        s[i] == operator.symbol_of(),
        operator != Operator::Sub,
        st.depth == 0,
        !st.expected,
    ensures
        run(s, i, st, env, facts) == Err::<Value, Halted>(
            Halted::Failed(
                EvalError::UnexpectedOperator { previous: st.last_operator(), found: operator },
            ),
        ),
{
    reveal(step);
    lemma_run_step(s, i, st, env, facts);
}

/// Outside a group, `)` is an error.
pub proof fn lemma_unopened(
    s: Seq<char>,
    i: int,
    st: State,
    env: Map<Seq<char>, Type>,
    facts: Seq<Fact>,
)
    requires
        0 <= i < s.len(),
        s[i] == ')',
        st.depth == 0,
    ensures
        run(s, i, st, env, facts) == Err::<Value, Halted>(
            Halted::Failed(EvalError::UnbalancedParentheses(Missing::Opening)),
        ),
{
    reveal(step);
    lemma_run_step(s, i, st, env, facts);
}

/// At the end of the expression, a token in the buffer is resolved and joins what was
/// accumulated.
pub proof fn lemma_last_token(
    s: Seq<char>,
    st: State,
    env: Map<Seq<char>, Type>,
    facts: Seq<Fact>,
)
    requires
        st.depth == 0,
        is_token(st.buffer),
    ensures
        run(s, s.len() as int, st, env, facts) == match resolve(st.buffer, env, facts) {
            Err(halt) => Err(halt),
            Ok(right) => join(st.pending, right, facts),
        },
{
    lemma_run_end(s, s.len() as int, st, env, facts);
    assert(st.buffer != seq!['-']) by {
        if st.buffer == seq!['-'] {
            assert(st.buffer.last() == '-');
        }
    }
}

/// At the end of the expression, with an empty buffer and no parenthesis open, the
/// operand read last joins what was accumulated.
pub proof fn lemma_last_group(
    s: Seq<char>,
    st: State,
    env: Map<Seq<char>, Type>,
    facts: Seq<Fact>,
)
    requires
        st.depth == 0,
        st.buffer.len() == 0,
        st.operand is Some,
    ensures
        run(s, s.len() as int, st, env, facts) == join(st.pending, st.operand->0, facts),
{
    lemma_run_end(s, s.len() as int, st, env, facts);
    assert(st.buffer != seq!['-']) by {
        if st.buffer == seq!['-'] {
            assert(st.buffer.len() == 1);
        }
    }
}

/// Outside a group, a run of spaces changes nothing.
pub proof fn lemma_spaces(
    s: Seq<char>,
    i: int,
    count: nat,
    st: State,
    env: Map<Seq<char>, Type>,
    facts: Seq<Fact>,
)
    requires
        stands_at(s, i, spaces(count)),
        st.depth == 0,
    ensures
        run(s, i, st, env, facts) == run(s, i + count, st, env, facts),
    decreases count,
{
    if count > 0 {
        assert(s[i + 0] == spaces(count)[0]);
        lemma_space(s, i, st, env, facts);
        let rest = spaces((count - 1) as nat);
        assert forall|k: int| 0 <= k < rest.len() implies s[i + 1 + k] == #[trigger] rest[k] by {
            assert(s[i + (k + 1)] == spaces(count)[k + 1]);
        }
        lemma_spaces(s, i + 1, (count - 1) as nat, st, env, facts);
    }
}

/// Outside a group, a run of plain characters joins the literal that is being read.
pub proof fn lemma_literal(
    s: Seq<char>,
    i: int,
    t: Seq<char>,
    st: State,
    env: Map<Seq<char>, Type>,
    facts: Seq<Fact>,
)
    requires
        stands_at(s, i, t),
        forall|k: int| 0 <= k < t.len() ==> plain(#[trigger] t[k]),
        st.depth == 0,
    ensures
        run(s, i, st, env, facts) == run(
            s,
            i + t.len(),
            State { buffer: st.buffer + t, expected: st.expected || t.len() > 0, ..st },
            env,
            facts,
        ),
    decreases t.len(),
{
    if t.len() == 0 {
        assert(st.buffer + t =~= st.buffer);
    } else {
        let next = State { buffer: st.buffer.push(t[0]), expected: true, ..st };
        let rest = t.drop_first();
        assert(s[i + 0] == t[0]);
        lemma_plain(s, i, st, env, facts);
        assert forall|k: int| 0 <= k < rest.len() implies s[i + 1 + k] == #[trigger] rest[k] by {
            assert(s[i + (k + 1)] == t[k + 1]);
        }
        assert forall|k: int| 0 <= k < rest.len() implies plain(#[trigger] rest[k]) by {
            assert(rest[k] == t[k + 1]);
        }
        lemma_literal(s, i + 1, rest, next, env, facts);
        assert(next.buffer + rest =~= st.buffer + t);
    }
}

/// Where an operand is due, a token is read into the buffer as a whole.
pub proof fn lemma_token(
    s: Seq<char>,
    i: int,
    t: Seq<char>,
    st: State,
    env: Map<Seq<char>, Type>,
    facts: Seq<Fact>,
)
    requires
        stands_at(s, i, t),
        is_token(t),
        st.depth == 0,
        !st.expected,
    ensures
        run(s, i, st, env, facts) == run(
            s,
            i + t.len(),
            State { buffer: st.buffer + t, expected: true, ..st },
            env,
            facts,
        ),
{
    if plain(t[0]) {
        lemma_literal(s, i, t, st, env, facts);
    } else {
        let next = State { buffer: st.buffer.push('-'), ..st };
        let rest = t.drop_first();
        assert(s[i + 0] == t[0]);
        lemma_minus(s, i, st, env, facts);
        assert forall|k: int| 0 <= k < rest.len() implies s[i + 1 + k] == #[trigger] rest[k] by {
            assert(s[i + (k + 1)] == t[k + 1]);
        }
        assert forall|k: int| 0 <= k < rest.len() implies plain(#[trigger] rest[k]) by {
            assert(rest[k] == t[k + 1]);
        }
        lemma_literal(s, i + 1, rest, next, env, facts);
        assert(next.buffer + rest =~= st.buffer + t);
    }
}

/// Inside a group, characters other than parentheses are passed over.
pub proof fn lemma_inside(
    s: Seq<char>,
    i: int,
    t: Seq<char>,
    st: State,
    env: Map<Seq<char>, Type>,
    facts: Seq<Fact>,
)
    requires
        stands_at(s, i, t),
        forall|k: int| 0 <= k < t.len() ==> #[trigger] t[k] != '(' && t[k] != ')',
        st.depth > 0,
    ensures
        run(s, i, st, env, facts) == run(s, i + t.len(), st, env, facts),
    decreases t.len(),
{
    if t.len() > 0 {
        let rest = t.drop_first();
        assert(s[i + 0] == t[0]);
        lemma_passed_over(s, i, st, env, facts);
        assert forall|k: int| 0 <= k < rest.len() implies s[i + 1 + k] == #[trigger] rest[k] by {
            assert(s[i + (k + 1)] == t[k + 1]);
        }
        assert forall|k: int| 0 <= k < rest.len() implies #[trigger] rest[k] != '(' && rest[k]
            != ')' by {
            assert(rest[k] == t[k + 1]);
        }
        lemma_inside(s, i + 1, rest, st, env, facts);
    }
}

/// How many parentheses a text leaves open: those it opens, less those it closes.
pub open spec fn level(g: Seq<char>) -> int
    decreases g.len(),
{
    if g.len() == 0 {
        0
    } else {
        level(g.drop_last()) + (if g.last() == '(' {
            1int
        } else if g.last() == ')' {
            -1int
        } else {
            0int
        })
    }
}

/// The parentheses of a text match: it leaves none open, and at no point has it
/// closed more than it has opened.
pub open spec fn balanced(g: Seq<char>) -> bool {
    &&& level(g) == 0
    &&& forall|k: int| 0 <= k <= g.len() ==> level(#[trigger] g.take(k)) >= 0
}

/// Inside the outermost group, a text that never closes more parentheses than it has
/// opened is passed over; what remains open is what it leaves open.
pub proof fn lemma_inside_group(
    s: Seq<char>,
    i: int,
    g: Seq<char>,
    k: int,
    st: State,
    env: Map<Seq<char>, Type>,
    facts: Seq<Fact>,
)
    requires
        stands_at(s, i, g),
        0 <= k <= g.len(),
        st.depth == 1,
        forall|j: int| 0 <= j <= g.len() ==> level(#[trigger] g.take(j)) >= 0,
    ensures
        run(s, i, st, env, facts) == run(
            s,
            i + k,
            State { depth: (1 + level(g.take(k))) as nat, ..st },
            env,
            facts,
        ),
    decreases k,
{
    if k == 0 {
        assert(g.take(0) =~= Seq::<char>::empty());
    } else {
        lemma_inside_group(s, i, g, k - 1, st, env, facts);
        let before = g.take(k - 1);
        let after = g.take(k);
        assert(after.drop_last() =~= before);
        assert(after.last() == g[k - 1]);
        assert(s[i + (k - 1)] == g[k - 1]);
        assert(level(before) >= 0);
        assert(level(after) >= 0);
        let here = State { depth: (1 + level(before)) as nat, ..st };
        if g[k - 1] == '(' {
            lemma_deeper(s, i + k - 1, here, env, facts);
        } else if g[k - 1] == ')' {
            lemma_shallower(s, i + k - 1, here, env, facts);
        } else {
            lemma_passed_over(s, i + k - 1, here, env, facts);
        }
    }
}

/// A pass that is due an operand and stands before a token and an operator that need
/// not wait: the token's value joins what was accumulated, and the operator waits.
pub proof fn lemma_operand(
    s: Seq<char>,
    i: int,
    t: Seq<char>,
    before: nat,
    operator: Operator,
    after: nat,
    st: State,
    env: Map<Seq<char>, Type>,
    facts: Seq<Fact>,
)
    requires
        is_token(t),
        operand_at(s, i, t, before, operator, after),
        st.depth == 0,
        !st.expected,
        st.buffer.len() == 0,
        joins_at_once(operator, st),
    ensures
        run(s, i, st, env, facts) == match resolve(t, env, facts) {
            Err(halt) => Err(halt),
            Ok(right) => match join(st.pending, right, facts) {
                Err(halt) => Err(halt),
                Ok(total) => run(
                    s,
                    i + t.len() + before + 1 + after,
                    State {
                        buffer: Seq::empty(),
                        operand: Some(right),
                        pending: Some((total, operator)),
                        expected: false,
                        ..st
                    },
                    env,
                    facts,
                ),
            },
        },
{
    let n = i + t.len();
    lemma_token(s, i, t, st, env, facts);
    let st1 = State { buffer: st.buffer + t, expected: true, ..st };
    assert(st1.buffer =~= t);
    lemma_spaces(s, n, before, st1, env, facts);
    assert(s[n + before + 0] == seq![operator.symbol_of()][0]);
    lemma_operator(s, n + before, operator, st1, env, facts);
    match resolve(t, env, facts) {
        Err(halt) => {},
        Ok(right) => {
            match join(st.pending, right, facts) {
                Err(halt) => {},
                Ok(total) => {
                    let st2 = State {
                        buffer: Seq::empty(),
                        operand: Some(right),
                        pending: Some((total, operator)),
                        expected: false,
                        ..st1
                    };
                    lemma_spaces(s, n + before + 1, after, st2, env, facts);
                },
            }
        },
    }
}

/// A pass that is due an operand after `+` or `-` and stands before a token and one
/// of `*`, `/`, `%`: the rest of the expression is evaluated first, starting from the
/// token's value, and its value joins what was accumulated.
pub proof fn lemma_operand_of_tighter(
    s: Seq<char>,
    i: int,
    t: Seq<char>,
    before: nat,
    operator: Operator,
    after: nat,
    st: State,
    env: Map<Seq<char>, Type>,
    facts: Seq<Fact>,
)
    requires
        is_token(t),
        operand_at(s, i, t, before, operator, after),
        st.depth == 0,
        !st.expected,
        st.buffer.len() == 0,
        !joins_at_once(operator, st),
    ensures
        run(s, i, st, env, facts) == match resolve(t, env, facts) {
            Err(halt) => Err(halt),
            Ok(right) => match run(
                s,
                i + t.len() + before + 1 + after,
                State::resumed(right, operator),
                env,
                facts,
            ) {
                Err(halt) => Err(halt),
                Ok(rest) => join(st.pending, rest, facts),
            },
        },
{
    let n = i + t.len();
    lemma_token(s, i, t, st, env, facts);
    let st1 = State { buffer: st.buffer + t, expected: true, ..st };
    assert(st1.buffer =~= t);
    lemma_spaces(s, n, before, st1, env, facts);
    assert(s[n + before + 0] == seq![operator.symbol_of()][0]);
    lemma_tighter(s, n + before, operator, st1, env, facts);
    match resolve(t, env, facts) {
        Err(halt) => {},
        Ok(right) => {
            lemma_spaces(s, n + before + 1, after, State::resumed(right, operator), env, facts);
        },
    }
}

/// A pass that is due an operand and stands before the token that ends the
/// expression: the token's value joins what was accumulated, and that is the result.
pub proof fn lemma_last_operand(
    s: Seq<char>,
    i: int,
    t: Seq<char>,
    st: State,
    env: Map<Seq<char>, Type>,
    facts: Seq<Fact>,
)
    requires
        is_token(t),
        stands_at(s, i, t),
        i + t.len() == s.len(),
        st.depth == 0,
        !st.expected,
        st.buffer.len() == 0,
    ensures
        run(s, i, st, env, facts) == match resolve(t, env, facts) {
            Err(halt) => Err(halt),
            Ok(right) => join(st.pending, right, facts),
        },
{
    lemma_token(s, i, t, st, env, facts);
    let st1 = State { buffer: st.buffer + t, expected: true, ..st };
    assert(st1.buffer =~= t);
    lemma_last_token(s, st1, env, facts);
}

} // verus!
