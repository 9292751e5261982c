//! The expressions that are well formed, and what they mean.
//!
//! An expression is a chain of operands with an operator between each two. An operand
//! is a token or an expression in parentheses. Spaces may stand around operators and
//! inside parentheses, at both ends. The value of a chain goes from left to right, but
//! for one rule: where `*`, `/` or `%` follows an operand whose left neighbour is `+`
//! or `-`, the rest of the chain, from that operand on, is one operand of that `+` or
//! `-`. The law of this module says that an evaluation gives every well-formed
//! expression this value.

use vstd::prelude::*;
use crate::error::Halted;
use crate::evaluator::{evaluate, join, resolve, run, State};
use crate::operator::Operator;
use crate::passes::{
    balanced, is_token, joins_at_once, lemma_close, lemma_inside_group, lemma_last_group,
    lemma_last_token, lemma_open, lemma_operator, lemma_operator_after_group, lemma_spaces,
    lemma_tighter, lemma_tighter_after_group, lemma_token, level, plain, spaces, stands_at,
};
use crate::reals::Fact;
use crate::type_enum::{Type, Value};

verus! {

/// The operator binds tighter than the one that waits: it is `*`, `/` or `%`, and `+`
/// or `-` waits.
pub open spec fn defers(operator: Operator, pending: Option<(Value, Operator)>) -> bool {
    match pending {
        Some((_, waiting)) => operator.is_tight() && !waiting.is_tight(),
        None => false,
    }
}

/// An operand.
pub enum Operand {
    /// An operand token.
    Token(Seq<char>),
    /// A group: `(`, so many spaces, an expression, `)`.
    Group(nat, Box<Expr>),
}

/// An expression.
pub enum Expr {
    /// The last operand, and so many spaces after it.
    Last(Operand, nat),
    /// An operand, so many spaces, an operator, so many spaces, and the expression
    /// that follows.
    Then(Operand, nat, Operator, nat, Box<Expr>),
}

impl Operand {
    /// The operand as it is written.
    pub open spec fn written(self) -> Seq<char>
        decreases self,
    {
        match self {
            Operand::Token(token) => token,
            Operand::Group(lead, inner) => seq!['('] + (spaces(lead) + inner.written()) + seq![
                ')',
            ],
        }
    }

    /// Every token of the operand is an operand token.
    pub open spec fn well_formed(self) -> bool
        decreases self,
    {
        match self {
            Operand::Token(token) => is_token(token),
            Operand::Group(_, inner) => inner.well_formed(),
        }
    }

    /// The value of the operand: that of its token, or that of the expression in its
    /// parentheses.
    pub open spec fn value(self, env: Map<Seq<char>, Type>, facts: Seq<Fact>) -> Result<
        Value,
        Halted,
    >
        decreases self,
    {
        match self {
            Operand::Token(token) => resolve(token, env, facts),
            Operand::Group(_, inner) => inner.chain(None, env, facts),
        }
    }
}

impl Expr {
    /// The expression as it is written.
    pub open spec fn written(self) -> Seq<char>
        decreases self,
    {
        match self {
            Expr::Last(operand, trail) => operand.written() + spaces(trail),
            Expr::Then(operand, before, operator, after, rest) => operand.written() + spaces(
                before,
            ) + seq![operator.symbol_of()] + spaces(after) + rest.written(),
        }
    }

    /// Every token of the expression is an operand token.
    pub open spec fn well_formed(self) -> bool
        decreases self,
    {
        match self {
            Expr::Last(operand, _) => operand.well_formed(),
            Expr::Then(operand, _, _, _, rest) => operand.well_formed() && rest.well_formed(),
        }
    }

    /// The value of the chain once it has joined what was accumulated before it.
    ///
    /// The first operand joins at once, and the chain goes on from the result; but
    /// where `*`, `/` or `%` follows it and `+` or `-` waits, the rest of the chain,
    /// starting from that operand, is evaluated first and joins as a whole. Whatever
    /// stops an operand or a join stops the chain, for the same reason.
    pub open spec fn chain(
        self,
        pending: Option<(Value, Operator)>,
        env: Map<Seq<char>, Type>,
        facts: Seq<Fact>,
    ) -> Result<Value, Halted>
        decreases self,
    {
        match self {
            Expr::Last(operand, _) => match operand.value(env, facts) {
                Err(halt) => Err(halt),
                Ok(right) => join(pending, right, facts),
            },
            Expr::Then(operand, _, operator, _, rest) => match operand.value(env, facts) {
                Err(halt) => Err(halt),
                Ok(right) => if defers(operator, pending) {
                    match rest.chain(Some((right, operator)), env, facts) {
                        Err(halt) => Err(halt),
                        Ok(whole) => join(pending, whole, facts),
                    }
                } else {
                    match join(pending, right, facts) {
                        Err(halt) => Err(halt),
                        Ok(total) => rest.chain(Some((total, operator)), env, facts),
                    }
                },
            },
        }
    }

    /// The value of the expression.
    pub open spec fn value(self, env: Map<Seq<char>, Type>, facts: Seq<Fact>) -> Result<
        Value,
        Halted,
    > {
        self.chain(None, env, facts)
    }
}

/// Where a text is made of two parts, the first part stands where the text stands,
/// and the second part right after it.
pub proof fn lemma_stands_parts(s: Seq<char>, i: int, head: Seq<char>, tail: Seq<char>)
    requires
        stands_at(s, i, head + tail),
    ensures
        stands_at(s, i, head),
        stands_at(s, i + head.len(), tail),
{
    let whole = head + tail;
    assert forall|k: int| 0 <= k < head.len() implies s[i + k] == #[trigger] head[k] by {
        assert(whole[k] == head[k]);
    }
    assert forall|k: int| 0 <= k < tail.len() implies s[i + head.len() + k] == #[trigger] tail[k] by {
        assert(whole[head.len() + k] == tail[k]);
        assert(s[i + (head.len() + k)] == whole[head.len() + k]);
    }
}

/// Where the rest of a text is made of two parts, the first part stands where the
/// rest begins, and the second part is the rest after it.
pub proof fn lemma_rest_parts(s: Seq<char>, i: int, head: Seq<char>, tail: Seq<char>)
    requires
        0 <= i <= s.len(),
        s.skip(i) == head + tail,
    ensures
        stands_at(s, i, head),
        i + head.len() <= s.len(),
        s.skip(i + head.len()) == tail,
{
    let whole = head + tail;
    assert(s.skip(i).len() == whole.len());
    assert forall|k: int| 0 <= k < head.len() implies s[i + k] == #[trigger] head[k] by {
        assert(s.skip(i)[k] == whole[k]);
    }
    assert forall|k: int| 0 <= k < tail.len() implies s.skip(i + head.len())[k] == tail[k] by {
        assert(s.skip(i)[head.len() + k] == whole[head.len() + k]);
    }
    assert(s.skip(i + head.len()) =~= tail);
}

/// What a text of two parts leaves open is what its parts leave open, together.
pub proof fn lemma_level_parts(head: Seq<char>, tail: Seq<char>)
    ensures
        level(head + tail) == level(head) + level(tail),
    decreases tail.len(),
{
    if tail.len() == 0 {
        assert(head + tail =~= head);
    } else {
        lemma_level_parts(head, tail.drop_last());
        assert((head + tail).drop_last() =~= head + tail.drop_last());
        assert((head + tail).last() == tail.last());
    }
}

/// A text without parentheses leaves none open.
pub proof fn lemma_level_flat(t: Seq<char>)
    requires
        forall|k: int| 0 <= k < t.len() ==> #[trigger] t[k] != '(' && t[k] != ')',
    ensures
        level(t) == 0,
    decreases t.len(),
{
    if t.len() > 0 {
        assert(t.last() == t[t.len() - 1]);
        assert forall|k: int| 0 <= k < t.drop_last().len() implies #[trigger] t.drop_last()[k]
            != '(' && t.drop_last()[k] != ')' by {
            assert(t.drop_last()[k] == t[k]);
        }
        lemma_level_flat(t.drop_last());
    }
}

/// The parentheses of a text without parentheses match.
pub proof fn lemma_balanced_flat(t: Seq<char>)
    requires
        forall|k: int| 0 <= k < t.len() ==> #[trigger] t[k] != '(' && t[k] != ')',
    ensures
        balanced(t),
{
    lemma_level_flat(t);
    assert forall|j: int| 0 <= j <= t.len() implies level(#[trigger] t.take(j)) >= 0 by {
        assert forall|k: int| 0 <= k < t.take(j).len() implies #[trigger] t.take(j)[k] != '('
            && t.take(j)[k] != ')' by {
            assert(t.take(j)[k] == t[k]);
        }
        lemma_level_flat(t.take(j));
    }
}

/// Where the parentheses of two texts match, those of the two together match.
pub proof fn lemma_balanced_parts(head: Seq<char>, tail: Seq<char>)
    requires
        balanced(head),
        balanced(tail),
    ensures
        balanced(head + tail),
{
    let whole = head + tail;
    lemma_level_parts(head, tail);
    assert forall|j: int| 0 <= j <= whole.len() implies level(#[trigger] whole.take(j)) >= 0 by {
        if j <= head.len() {
            assert(whole.take(j) =~= head.take(j));
        } else {
            assert(whole.take(j) =~= head + tail.take(j - head.len()));
            lemma_level_parts(head, tail.take(j - head.len()));
        }
    }
}

/// Where the parentheses of a text match, so do they once the text stands in
/// parentheses.
pub proof fn lemma_balanced_group(g: Seq<char>)
    requires
        balanced(g),
    ensures
        balanced(seq!['('] + g + seq![')']),
{
    let open = seq!['('];
    let close = seq![')'];
    let whole = open + g + close;
    assert(level(open) == 1) by {
        assert(open.drop_last() =~= Seq::<char>::empty());
        assert(level(open.drop_last()) == 0);
    }
    assert(level(close) == -1) by {
        assert(close.drop_last() =~= Seq::<char>::empty());
        assert(level(close.drop_last()) == 0);
    }
    lemma_level_parts(open, g);
    lemma_level_parts(open + g, close);
    assert forall|j: int| 0 <= j <= whole.len() implies level(#[trigger] whole.take(j)) >= 0 by {
        if j == 0 {
            assert(whole.take(j) =~= Seq::<char>::empty());
        } else if j <= g.len() + 1 {
            assert(whole.take(j) =~= open + g.take(j - 1));
            lemma_level_parts(open, g.take(j - 1));
        } else {
            assert(whole.take(j) =~= whole);
        }
    }
}

/// An operand token holds no parentheses.
pub proof fn lemma_token_flat(t: Seq<char>)
    requires
        is_token(t),
    ensures
        forall|k: int| 0 <= k < t.len() ==> #[trigger] t[k] != '(' && t[k] != ')',
{
    assert forall|k: int| 0 <= k < t.len() implies #[trigger] t[k] != '(' && t[k] != ')' by {
        if k >= 1 {
            assert(plain(t[k]));
        }
    }
}

/// The parentheses of a well-formed operand match, and the operand is not empty.
pub proof fn lemma_operand_balanced(operand: Operand)
    requires
        operand.well_formed(),
    ensures
        balanced(operand.written()),
        operand.written().len() > 0,
    decreases operand,
{
    match operand {
        Operand::Token(token) => {
            lemma_token_flat(token);
            lemma_balanced_flat(token);
        },
        Operand::Group(lead, inner) => {
            lemma_expr_balanced(*inner);
            lemma_balanced_flat(spaces(lead));
            lemma_balanced_parts(spaces(lead), inner.written());
            lemma_balanced_group(spaces(lead) + inner.written());
        },
    }
}

/// The parentheses of a well-formed expression match, and the expression is not
/// empty.
pub proof fn lemma_expr_balanced(e: Expr)
    requires
        e.well_formed(),
    ensures
        balanced(e.written()),
        e.written().len() > 0,
    decreases e,
{
    match e {
        Expr::Last(operand, trail) => {
            lemma_operand_balanced(operand);
            lemma_balanced_flat(spaces(trail));
            lemma_balanced_parts(operand.written(), spaces(trail));
        },
        Expr::Then(operand, before, operator, after, rest) => {
            lemma_operand_balanced(operand);
            lemma_expr_balanced(*rest);
            lemma_balanced_flat(spaces(before));
            lemma_balanced_flat(seq![operator.symbol_of()]);
            lemma_balanced_flat(spaces(after));
            let one = operand.written();
            let two = one + spaces(before);
            let three = two + seq![operator.symbol_of()];
            let four = three + spaces(after);
            lemma_balanced_parts(one, spaces(before));
            lemma_balanced_parts(two, seq![operator.symbol_of()]);
            lemma_balanced_parts(three, spaces(after));
            lemma_balanced_parts(four, rest.written());
        },
    }
}

/// A pass that stands before a group goes through it: the value of what the group
/// holds becomes the operand read last; where that has no value, neither has the
/// expression.
pub proof fn lemma_group(
    g: Seq<char>,
    s: Seq<char>,
    i: int,
    st: State,
    env: Map<Seq<char>, Type>,
    facts: Seq<Fact>,
)
    requires
        balanced(g),
        g.len() > 0,
        stands_at(s, i, seq!['('] + g + seq![')']),
        st.depth == 0,
    ensures
        run(s, i, st, env, facts) == match evaluate(g, env, facts) {
            Err(halt) => Err(halt),
            Ok(value) => run(
                s,
                i + g.len() + 2,
                State { depth: 0, opened: i as nat, operand: Some(value), expected: true, ..st },
                env,
                facts,
            ),
        },
{
    let text = seq!['('] + g + seq![')'];
    let n = g.len() as int;
    assert(s[i + 0] == text[0]);
    lemma_open(s, i, st, env, facts);
    let st1 = State { depth: 1, opened: i as nat, ..st };
    lemma_stands_parts(s, i, seq!['('] + g, seq![')']);
    lemma_stands_parts(s, i, seq!['('], g);
    lemma_inside_group(s, i + 1, g, n, st1, env, facts);
    assert(g.take(n) =~= g);
    assert(s[i + n + 1 + 0] == seq![')'][0]);
    assert(s.subrange(i + 1, i + n + 1) =~= g) by {
        assert forall|k: int| 0 <= k < n implies s.subrange(i + 1, i + n + 1)[k] == g[k] by {
            assert(s[i + 1 + k] == g[k]);
        }
    }
    lemma_close(s, i + n + 1, st1, env, facts);
}

/// Evaluation gives a well-formed expression its value: a pass that is due an operand
/// and stands before a well-formed expression that reaches to the end gives the value
/// of that chain, joined to what the pass has accumulated.
pub proof fn lemma_chain(
    e: Expr,
    s: Seq<char>,
    i: int,
    st: State,
    env: Map<Seq<char>, Type>,
    facts: Seq<Fact>,
)
    requires
        e.well_formed(),
        0 <= i <= s.len(),
        s.skip(i) == e.written(),
        st.depth == 0,
        !st.expected,
        st.buffer.len() == 0,
    ensures
        run(s, i, st, env, facts) == e.chain(st.pending, env, facts),
    decreases e, 0nat,
{
    match e {
        Expr::Last(operand, trail) => {
            let p = i + operand.written().len();
            lemma_rest_parts(s, i, operand.written(), spaces(trail));
            assert(stands_at(s, p, spaces(trail)) && p + trail == s.len()) by {
                assert(s.skip(p).len() == trail);
                assert forall|k: int| 0 <= k < trail implies s[p + k] == #[trigger] spaces(
                    trail,
                )[k] by {
                    assert(s.skip(p)[k] == spaces(trail)[k]);
                }
            }
            lemma_operand(operand, s, i, st, env, facts);
            if operand is Token || operand.value(env, facts) is Ok {
                let st1 = after_operand(operand, i, value_or_zero(operand, env, facts), st);
                lemma_spaces(s, p, trail, st1, env, facts);
                lemma_last_step(operand, s, st1, env, facts);
            }
        },
        Expr::Then(operand, before, operator, after, rest) => {
            let one = operand.written();
            let two = one + spaces(before);
            let three = two + seq![operator.symbol_of()];
            let four = three + spaces(after);
            lemma_rest_parts(s, i, four, rest.written());
            lemma_stands_parts(s, i, three, spaces(after));
            lemma_stands_parts(s, i, two, seq![operator.symbol_of()]);
            lemma_stands_parts(s, i, one, spaces(before));
            let p = i + one.len();
            let q = p + before;
            lemma_operand(operand, s, i, st, env, facts);
            if operand is Token || operand.value(env, facts) is Ok {
                let st1 = after_operand(operand, i, value_or_zero(operand, env, facts), st);
                lemma_spaces(s, p, before, st1, env, facts);
                assert(s[q + 0] == seq![operator.symbol_of()][0]);
                lemma_operator_step(operand, s, q, operator, st1, env, facts);
                if let Ok(right) = operand.value(env, facts) {
                    if defers(operator, st.pending) {
                        let st2 = State::resumed(right, operator);
                        lemma_spaces(s, q + 1, after, st2, env, facts);
                        lemma_chain(*rest, s, q + 1 + after, st2, env, facts);
                    } else if let Ok(total) = join(st.pending, right, facts) {
                        let st2 = State {
                            buffer: Seq::empty(),
                            operand: Some(right),
                            pending: Some((total, operator)),
                            expected: false,
                            ..st1
                        };
                        lemma_spaces(s, q + 1, after, st2, env, facts);
                        lemma_chain(*rest, s, q + 1 + after, st2, env, facts);
                    }
                }
            }
        },
    }
}

/// The value of an operand, or zero where it has none.
pub open spec fn value_or_zero(
    operand: Operand,
    env: Map<Seq<char>, Type>,
    facts: Seq<Fact>,
) -> Value {
    match operand.value(env, facts) {
        Ok(value) => value,
        Err(_) => Value::Int(0),
    }
}

/// The state of a pass that has gone through an operand of the given value: a token
/// is in the buffer, the value of a group is the operand read last.
pub open spec fn after_operand(operand: Operand, i: int, value: Value, st: State) -> State {
    match operand {
        Operand::Token(token) => State { buffer: token, expected: true, ..st },
        Operand::Group(_, _) => State {
            depth: 0,
            opened: i as nat,
            operand: Some(value),
            expected: true,
            ..st
        },
    }
}

/// A pass that is due an operand and stands before a well-formed one goes through it;
/// where the operand is a group without a value, neither has the expression.
pub proof fn lemma_operand(
    operand: Operand,
    s: Seq<char>,
    i: int,
    st: State,
    env: Map<Seq<char>, Type>,
    facts: Seq<Fact>,
)
    requires
        operand.well_formed(),
        stands_at(s, i, operand.written()),
        st.depth == 0,
        !st.expected,
        st.buffer.len() == 0,
    ensures
        operand is Token ==> run(s, i, st, env, facts) == run(
            s,
            i + operand.written().len(),
            State { buffer: operand->Token_0, expected: true, ..st },
            env,
            facts,
        ),
        operand is Group ==> run(s, i, st, env, facts) == match operand.value(env, facts) {
            Err(halt) => Err(halt),
            Ok(value) => run(
                s,
                i + operand.written().len(),
                after_operand(operand, i, value, st),
                env,
                facts,
            ),
        },
    decreases operand, 1nat,
{
    match operand {
        Operand::Token(token) => {
            lemma_token(s, i, token, st, env, facts);
            assert(st.buffer + token =~= token);
        },
        Operand::Group(lead, inner) => {
            let g = spaces(lead) + inner.written();
            lemma_expr_balanced(*inner);
            lemma_balanced_flat(spaces(lead));
            lemma_balanced_parts(spaces(lead), inner.written());
            lemma_group(g, s, i, st, env, facts);
            assert(g.skip(0) =~= g);
            lemma_rest_parts(g, 0, spaces(lead), inner.written());
            lemma_spaces(g, 0, lead, State::fresh(), env, facts);
            lemma_chain(*inner, g, lead as int, State::fresh(), env, facts);
        },
    }
}

/// A pass has gone through the operand: a token is in the buffer; the value of a
/// group is the operand read last, and the buffer is empty.
pub open spec fn holds(
    st: State,
    operand: Operand,
    env: Map<Seq<char>, Type>,
    facts: Seq<Fact>,
) -> bool {
    &&& st.depth == 0
    &&& st.expected
    &&& match operand {
        Operand::Token(token) => st.buffer == token,
        Operand::Group(_, _) => st.buffer.len() == 0 && st.operand is Some && operand.value(
            env,
            facts,
        ) == Ok::<Value, Halted>(st.operand->0),
    }
}

/// Where an operator follows an operand, the operand's value joins what was
/// accumulated and the operator waits; or, where the operator binds tighter than the
/// one that waits, the rest of the expression is evaluated first.
pub proof fn lemma_operator_step(
    operand: Operand,
    s: Seq<char>,
    i: int,
    operator: Operator,
    st: State,
    env: Map<Seq<char>, Type>,
    facts: Seq<Fact>,
)
    requires
        operand.well_formed(),
        0 <= i < s.len(),
        s[i] == operator.symbol_of(),
        holds(st, operand, env, facts),
    ensures
        run(s, i, st, env, facts) == match operand.value(env, facts) {
            Err(halt) => Err(halt),
            Ok(right) => if defers(operator, st.pending) {
                match run(s, i + 1, State::resumed(right, operator), env, facts) {
                    Err(halt) => Err(halt),
                    Ok(rest) => join(st.pending, rest, facts),
                }
            } else {
                match join(st.pending, right, facts) {
                    Err(halt) => Err(halt),
                    Ok(total) => run(
                        s,
                        i + 1,
                        State {
                            buffer: Seq::empty(),
                            operand: Some(right),
                            pending: Some((total, operator)),
                            expected: false,
                            ..st
                        },
                        env,
                        facts,
                    ),
                }
            },
        },
{
    assert(defers(operator, st.pending) == !joins_at_once(operator, st));
    match operand {
        Operand::Token(token) => {
            if defers(operator, st.pending) {
                lemma_tighter(s, i, operator, st, env, facts);
            } else {
                lemma_operator(s, i, operator, st, env, facts);
            }
        },
        Operand::Group(_, _) => {
            if defers(operator, st.pending) {
                lemma_tighter_after_group(s, i, operator, st, env, facts);
            } else {
                lemma_operator_after_group(s, i, operator, st, env, facts);
            }
        },
    }
}

/// Where the expression ends after an operand, the operand's value joins what was
/// accumulated, and that is the result.
pub proof fn lemma_last_step(
    operand: Operand,
    s: Seq<char>,
    st: State,
    env: Map<Seq<char>, Type>,
    facts: Seq<Fact>,
)
    requires
        operand.well_formed(),
        holds(st, operand, env, facts),
    ensures
        run(s, s.len() as int, st, env, facts) == match operand.value(env, facts) {
            Err(halt) => Err(halt),
            Ok(right) => join(st.pending, right, facts),
        },
{
    match operand {
        Operand::Token(token) => {
            lemma_last_token(s, st, env, facts);
        },
        Operand::Group(_, _) => {
            lemma_last_group(s, st, env, facts);
        },
    }
}

/// Evaluation gives every well-formed expression its value, whatever spaces stand
/// before it.
pub proof fn law_grammar(lead: nat, e: Expr, env: Map<Seq<char>, Type>, facts: Seq<Fact>)
    requires
        e.well_formed(),
    ensures
        evaluate(spaces(lead) + e.written(), env, facts) == e.value(env, facts),
{
    let s = spaces(lead) + e.written();
    assert(s.skip(0) =~= s);
    lemma_rest_parts(s, 0, spaces(lead), e.written());
    lemma_spaces(s, 0, lead, State::fresh(), env, facts);
    lemma_chain(e, s, lead as int, State::fresh(), env, facts);
}

} // verus!
