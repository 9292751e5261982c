//! What the table learns later does not change an evaluation that has ended.
//!
//! An evaluation that stops at a question is run again once the answer has been
//! recorded. These laws say why that is sound: a fact that is recorded answers its
//! question from then on, and a result that is a value or an error stays what it is
//! whatever facts are recorded after it.

use vstd::prelude::*;
use crate::error::Halted;
use crate::evaluator::{
    evaluate, finish, join, lemma_run_end, lemma_run_step, resolve, run, step, State, Step,
};
use crate::operator::Operator;
use crate::reals::{combined, known, parsed, shown, Fact, Query, Real};
use crate::text::{dotted, parse_int};
use crate::type_enum::{apply, coerce, on_reals, Type, Value};

verus! {

/// The result is final: a value or an error, no question.
pub open spec fn settled<T>(r: Result<T, Halted>) -> bool {
    !(r matches Err(Halted::Pending(_)))
}

/// The fact that answers a question is a fact about that question.
pub proof fn lemma_known_answers(facts: Seq<Fact>, query: Query)
    ensures
        known(facts, query) matches Some(fact) ==> fact.question() == query,
    decreases facts.len(),
{
    if facts.len() > 0 && facts[0].question() != query {
        lemma_known_answers(facts.drop_first(), query);
    }
}

/// A question that the facts answer is answered in the same way once more facts have
/// been recorded.
pub proof fn lemma_known_stays(facts: Seq<Fact>, more: Seq<Fact>, query: Query)
    requires
        known(facts, query) is Some,
    ensures
        known(facts + more, query) == known(facts, query),
    decreases facts.len(),
{
    assert((facts + more)[0] == facts[0]);
    if facts[0].question() != query {
        lemma_known_stays(facts.drop_first(), more, query);
        assert((facts + more).drop_first() =~= facts.drop_first() + more);
    }
}

/// Once a fact has been recorded, its question has an answer.
pub proof fn law_recorded_is_known(facts: Seq<Fact>, fact: Fact)
    ensures
        known(facts.push(fact), fact.question()) is Some,
    decreases facts.len(),
{
    let all = facts.push(fact);
    if facts.len() == 0 {
        assert(all[0] == fact);
    } else {
        assert(all[0] == facts[0]);
        if facts[0].question() != fact.question() {
            law_recorded_is_known(facts.drop_first(), fact);
            assert(all.drop_first() =~= facts.drop_first().push(fact));
        }
    }
}

/// What the facts say a text reads as stays once they say it.
pub proof fn lemma_parsed_stays(facts: Seq<Fact>, more: Seq<Fact>, text: Seq<char>)
    requires
        settled(parsed(facts, text)),
    ensures
        parsed(facts + more, text) == parsed(facts, text),
{
    lemma_known_answers(facts, Query::Parse(text));
    if known(facts, Query::Parse(text)) is Some {
        lemma_known_stays(facts, more, Query::Parse(text));
    }
}

/// How the facts say a real is written stays once they say it.
pub proof fn lemma_shown_stays(facts: Seq<Fact>, more: Seq<Fact>, number: Real)
    requires
        settled(shown(facts, number)),
    ensures
        shown(facts + more, number) == shown(facts, number),
{
    lemma_known_answers(facts, Query::Show(number));
    if known(facts, Query::Show(number)) is Some {
        lemma_known_stays(facts, more, Query::Show(number));
    }
}

/// What the facts say an operator gives on two reals stays once they say it.
pub proof fn lemma_combined_stays(
    facts: Seq<Fact>,
    more: Seq<Fact>,
    operator: Operator,
    left: Real,
    right: Real,
)
    requires
        settled(combined(facts, operator, left, right)),
    ensures
        combined(facts + more, operator, left, right) == combined(facts, operator, left, right),
{
    lemma_known_answers(facts, Query::Combine(operator, left, right));
    if known(facts, Query::Combine(operator, left, right)) is Some {
        lemma_known_stays(facts, more, Query::Combine(operator, left, right));
    }
}

/// What a value adds to a text stays what it is.
pub proof fn lemma_as_text_stays(value: Value, facts: Seq<Fact>, more: Seq<Fact>)
    requires
        settled(value.as_text(facts)),
    ensures
        value.as_text(facts + more) == value.as_text(facts),
{
    if let Value::Float(number) = value {
        lemma_shown_stays(facts, more, number);
    }
}

/// What an operator gives on two numbers as reals stays what it is.
pub proof fn lemma_on_reals_stays(
    operator: Operator,
    left: Value,
    right: Value,
    facts: Seq<Fact>,
    more: Seq<Fact>,
)
    requires
        settled(on_reals(operator, left, right, facts)),
    ensures
        on_reals(operator, left, right, facts + more) == on_reals(operator, left, right, facts),
{
    lemma_combined_stays(facts, more, operator, left.as_real(), right.as_real());
}

/// What an operator gives on two values stays what it is.
pub proof fn lemma_apply_stays(
    operator: Operator,
    left: Value,
    right: Value,
    facts: Seq<Fact>,
    more: Seq<Fact>,
)
    requires
        settled(apply(operator, left, right, facts)),
    ensures
        apply(operator, left, right, facts + more) == apply(operator, left, right, facts),
{
    reveal(apply);
    if left.is_number() && right.is_number() {
        if !(left is Int && right is Int) && !((operator == Operator::Div || operator
            == Operator::Rem) && right.is_zero()) {
            lemma_on_reals_stays(operator, left, right, facts, more);
        }
    } else if operator == Operator::Add {
        lemma_as_text_stays(left, facts, more);
        if left.as_text(facts) is Ok {
            lemma_as_text_stays(right, facts, more);
        }
    }
}

/// The accumulated value, once a value has joined it, stays what it is.
pub proof fn lemma_join_stays(
    pending: Option<(Value, Operator)>,
    right: Value,
    facts: Seq<Fact>,
    more: Seq<Fact>,
)
    requires
        settled(join(pending, right, facts)),
    ensures
        join(pending, right, facts + more) == join(pending, right, facts),
{
    if let Some((left, operator)) = pending {
        lemma_apply_stays(operator, left, right, facts, more);
    }
}

/// The value of a literal stays what it is.
pub proof fn lemma_coerce_stays(text: Seq<char>, facts: Seq<Fact>, more: Seq<Fact>)
    requires
        settled(coerce(text, facts)),
    ensures
        coerce(text, facts + more) == coerce(text, facts),
{
    if parse_int(text) is None {
        lemma_parsed_stays(facts, more, dotted(text));
    }
}

/// The value of an operand token stays what it is.
pub proof fn lemma_resolve_stays(
    token: Seq<char>,
    env: Map<Seq<char>, Type>,
    facts: Seq<Fact>,
    more: Seq<Fact>,
)
    requires
        settled(resolve(token, env, facts)),
    ensures
        resolve(token, env, facts + more) == resolve(token, env, facts),
{
    if !env.contains_key(token) {
        lemma_coerce_stays(token, facts, more);
    }
}

/// A step that does not stop at a question stays what it is.
pub proof fn lemma_step_stays(
    c: char,
    i: int,
    st: State,
    env: Map<Seq<char>, Type>,
    facts: Seq<Fact>,
    more: Seq<Fact>,
)
    requires
        !(step(c, i, st, env, facts) matches Step::Stop(Halted::Pending(_))),
    ensures
        step(c, i, st, env, facts + more) == step(c, i, st, env, facts),
        step(c, i, st, env, facts) is Group ==> st.opened + 1 < i,
{
    reveal(step);
    if st.depth == 0 && Operator::of_char(c) is Some && st.expected {
        if st.buffer.len() > 0 {
            lemma_resolve_stays(st.buffer, env, facts, more);
        }
        let flushed = if st.buffer.len() > 0 {
            resolve(st.buffer, env, facts)
        } else {
            Ok(st.operand->0)
        };
        if let Ok(right) = flushed {
            let operator = Operator::of_char(c)->0;
            if !(operator.is_tight() && st.last_operator() is Some
                && !st.last_operator()->0.is_tight()) {
                lemma_join_stays(st.pending, right, facts, more);
            }
        }
    }
}

/// The result of a pass that has reached the end stays what it is.
pub proof fn lemma_finish_stays(
    st: State,
    env: Map<Seq<char>, Type>,
    facts: Seq<Fact>,
    more: Seq<Fact>,
)
    requires
        settled(finish(st, env, facts)),
    ensures
        finish(st, env, facts + more) == finish(st, env, facts),
{
    if st.buffer.len() > 0 {
        let token = if st.buffer == seq!['-'] {
            seq!['-', '1']
        } else {
            st.buffer
        };
        lemma_resolve_stays(token, env, facts, more);
        if let Ok(right) = resolve(token, env, facts) {
            let pending = match st.pending {
                Some((left, operator)) => Some(
                    (
                        left,
                        if st.buffer == seq!['-'] {
                            Operator::Mul
                        } else {
                            operator
                        },
                    ),
                ),
                None => None,
            };
            lemma_join_stays(pending, right, facts, more);
        }
    } else if let Some(right) = st.operand {
        lemma_join_stays(st.pending, right, facts, more);
    }
}

/// The result of a pass, once it is final, stays what it is.
pub proof fn lemma_run_stays(
    s: Seq<char>,
    i: int,
    st: State,
    env: Map<Seq<char>, Type>,
    facts: Seq<Fact>,
    more: Seq<Fact>,
)
    requires
        settled(run(s, i, st, env, facts)),
    ensures
        run(s, i, st, env, facts + more) == run(s, i, st, env, facts),
    decreases s.len(), s.len() - i,
{
    let later = facts + more;
    if !(0 <= i < s.len()) {
        lemma_run_end(s, i, st, env, facts);
        lemma_run_end(s, i, st, env, later);
        lemma_finish_stays(st, env, facts, more);
    } else {
        lemma_run_step(s, i, st, env, facts);
        lemma_run_step(s, i, st, env, later);
        lemma_step_stays(s[i], i, st, env, facts, more);
        match step(s[i], i, st, env, facts) {
            Step::Next(next) => {
                lemma_run_stays(s, i + 1, next, env, facts, more);
            },
            Step::Stop(halt) => {},
            Step::Group => {
                let group = s.subrange(st.opened as int + 1, i);
                lemma_run_stays(group, 0, State::fresh(), env, facts, more);
                if let Ok(value) = run(group, 0, State::fresh(), env, facts) {
                    lemma_run_stays(
                        s,
                        i + 1,
                        State { depth: 0, operand: Some(value), expected: true, ..st },
                        env,
                        facts,
                        more,
                    );
                }
            },
            Step::Rest(right, operator) => {
                lemma_run_stays(s, i + 1, State::resumed(right, operator), env, facts, more);
                if let Ok(rest) = run(s, i + 1, State::resumed(right, operator), env, facts) {
                    lemma_join_stays(st.pending, rest, facts, more);
                }
            },
        }
    }
}

/// An evaluation that has ended with a value or an error ends in the same way
/// whatever facts are recorded later.
pub proof fn law_settled(
    expression: Seq<char>,
    env: Map<Seq<char>, Type>,
    facts: Seq<Fact>,
    more: Seq<Fact>,
)
    requires
        settled(evaluate(expression, env, facts)),
    ensures
        evaluate(expression, env, facts + more) == evaluate(expression, env, facts),
{
    lemma_run_stays(expression, 0, State::fresh(), env, facts, more);
}

} // verus!
