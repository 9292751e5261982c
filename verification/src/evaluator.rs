//! The evaluator: one pass over the characters of an expression.
//!
//! The pass keeps a small state: the characters of the literal being read, the operand
//! read last, the value accumulated so far with the operator that waits for its right
//! operand, how many parentheses are open and where the outermost was opened, and
//! whether an operator is due next. A parenthesized group is evaluated on its own and
//! becomes an operand. Where `*`, `/` or `%` follows an operand whose left neighbour is
//! `+` or `-`, the rest of the expression is evaluated first, starting from that
//! operand, and its value becomes the right operand of the waiting `+` or `-`.

use vstd::prelude::*;
use vstd::hash_map::StringHashMap;
use crate::error::{viewed, EvalError, Halt, Halted, Missing};
use crate::operator::Operator;
use crate::reals::{Fact, RealTable};
use crate::text::{chars_of, slice_of, string_of};
use crate::type_enum::{apply, coerce, coerce_chars, Type, Value};

verus! {

/// A table of variables: the values that names are bound to.
pub type Variables = StringHashMap<Type>;

/// The state of a pass, as contracts speak of it.
pub struct State {
    /// The characters of the literal that is being read.
    pub buffer: Seq<char>,
    /// The operand that was read last, if any was.
    pub operand: Option<Value>,
    /// The value accumulated so far and the operator that waits for its right operand.
    pub pending: Option<(Value, Operator)>,
    /// How many parentheses are open.
    pub depth: nat,
    /// Where the outermost open parenthesis stands.
    pub opened: nat,
    /// Whether an operator is due next.
    pub expected: bool,
}

impl State {
    /// The state in which a pass over a whole expression begins.
    pub open spec fn fresh() -> State {
        State {
            buffer: Seq::empty(),
            operand: None,
            pending: None,
            depth: 0,
            opened: 0,
            expected: false,
        }
    }

    /// The state in which a pass over the rest of an expression begins, when it starts
    /// from the operand `first` and the operator that follows it.
    pub open spec fn resumed(first: Value, operator: Operator) -> State {
        State {
            buffer: Seq::empty(),
            operand: Some(first),
            pending: Some((first, operator)),
            depth: 0,
            opened: 0,
            expected: false,
        }
    }

    /// The state in which a pass begins: fresh, or resumed from an operand and an
    /// operator.
    pub open spec fn seeded(seed: Option<(Value, Operator)>) -> State {
        match seed {
            None => State::fresh(),
            Some((first, operator)) => State::resumed(first, operator),
        }
    }

    /// Where an operator is due, there is an operand for it: a literal in the buffer,
    /// or the operand read last. Every state that a pass reaches is sound.
    pub open spec fn sound(self) -> bool {
        self.expected ==> self.buffer.len() > 0 || self.operand is Some
    }

    /// The operator that was seen last.
    pub open spec fn last_operator(self) -> Option<Operator> {
        match self.pending {
            Some((_, operator)) => Some(operator),
            None => None,
        }
    }
}

/// The variables that an evaluation sees.
pub open spec fn bindings(vars: Option<&Variables>) -> Map<Seq<char>, Type> {
    match vars {
        Some(map) => map@,
        None => Map::empty(),
    }
}

/// The value of an operand token: the value bound to it where it names a variable,
/// else the value that it stands for as a literal.
pub open spec fn resolve(token: Seq<char>, env: Map<Seq<char>, Type>, facts: Seq<Fact>) -> Result<
    Value,
    Halted,
> {
    if env.contains_key(token) {
        Ok(env[token]@)
    } else {
        coerce(token, facts)
    }
}

/// The accumulated value once `right` has joined it: `right` itself where nothing was
/// accumulated, else what the waiting operator gives.
pub open spec fn join(pending: Option<(Value, Operator)>, right: Value, facts: Seq<Fact>) -> Result<
    Value,
    Halted,
> {
    match pending {
        None => Ok(right),
        Some((left, operator)) => apply(operator, left, right, facts),
    }
}

/// The result of a pass that has reached the end of the expression.
///
/// A literal left in the buffer becomes the last operand; a buffer that holds just `-`
/// stands for `-1` and is multiplied in. The last operand joins the accumulated value.
/// Then an open parenthesis is an error, and so is an expression without any operand.
pub open spec fn finish(st: State, env: Map<Seq<char>, Type>, facts: Seq<Fact>) -> Result<
    Value,
    Halted,
> {
    let lone_minus = st.buffer == seq!['-'];
    let last = if st.buffer.len() == 0 {
        Ok(st.operand)
    } else {
        match resolve(
            if lone_minus {
                seq!['-', '1']
            } else {
                st.buffer
            },
            env,
            facts,
        ) {
            Ok(value) => Ok(Some(value)),
            Err(halt) => Err(halt),
        }
    };
    let pending = match st.pending {
        Some((left, operator)) => Some(
            (
                left,
                if lone_minus {
                    Operator::Mul
                } else {
                    operator
                },
            ),
        ),
        None => None,
    };
    match last {
        Err(halt) => Err(halt),
        Ok(None) => if st.depth != 0 {
            Err(Halted::Failed(EvalError::UnbalancedParentheses(Missing::Closing)))
        } else {
            match st.pending {
                Some((left, _)) => Ok(left),
                None => Err(Halted::Failed(EvalError::EmptyExpression)),
            }
        },
        Ok(Some(right)) => match join(pending, right, facts) {
            Err(halt) => Err(halt),
            Ok(total) => if st.depth != 0 {
                Err(Halted::Failed(EvalError::UnbalancedParentheses(Missing::Closing)))
            } else {
                Ok(total)
            },
        },
    }
}

/// What one character does to a pass.
pub enum Step {
    /// The pass goes on in this state.
    Next(State),
    /// The pass ends here, without a value.
    Stop(Halted),
    /// The character closes the outermost group. What stands between the group's
    /// parentheses is evaluated on its own and becomes the operand read last.
    Group,
    /// The character is `*`, `/` or `%` and follows an operand whose left neighbour is
    /// `+` or `-`. The rest of the expression is evaluated first, starting from this
    /// operand and this operator, and joins the accumulated value as a whole.
    Rest(Value, Operator),
}

/// What the character `c`, met at position `i`, does to a pass in state `st`.
#[verifier::opaque]
pub open spec fn step(
    c: char,
    i: int,
    st: State,
    env: Map<Seq<char>, Type>,
    facts: Seq<Fact>,
) -> Step
    recommends
        st.sound(),
{
    if st.depth > 0 {
        // Inside a group only the parentheses count.
        if c == '(' {
            Step::Next(State { depth: st.depth + 1, ..st })
        } else if c != ')' {
            Step::Next(st)
        } else if st.depth > 1 {
            Step::Next(State { depth: (st.depth - 1) as nat, ..st })
        } else if i - st.opened <= 1 {
            // An empty group is skipped.
            Step::Next(State { depth: 0, ..st })
        } else {
            Step::Group
        }
    } else {
        match Operator::of_char(c) {
            Some(operator) => if !st.expected {
                if operator == Operator::Sub {
                    // A minus where an operand is due belongs to the literal.
                    Step::Next(State { buffer: st.buffer.push('-'), ..st })
                } else {
                    Step::Stop(
                        Halted::Failed(
                            EvalError::UnexpectedOperator {
                                previous: st.last_operator(),
                                found: operator,
                            },
                        ),
                    )
                }
            } else {
                let flushed = if st.buffer.len() > 0 {
                    resolve(st.buffer, env, facts)
                } else {
                    Ok(st.operand->0)
                };
                match flushed {
                    Err(halt) => Step::Stop(halt),
                    Ok(right) => if operator.is_tight() && st.last_operator() is Some
                        && !st.last_operator()->0.is_tight() {
                        Step::Rest(right, operator)
                    } else {
                        match join(st.pending, right, facts) {
                            Err(halt) => Step::Stop(halt),
                            Ok(total) => Step::Next(
                                State {
                                    buffer: Seq::empty(),
                                    operand: Some(right),
                                    pending: Some((total, operator)),
                                    expected: false,
                                    ..st
                                },
                            ),
                        }
                    },
                }
            },
            None => if c == '(' {
                Step::Next(State { depth: 1, opened: i as nat, ..st })
            } else if c == ')' {
                Step::Stop(Halted::Failed(EvalError::UnbalancedParentheses(Missing::Opening)))
            } else if c == ' ' {
                Step::Next(st)
            } else {
                Step::Next(State { buffer: st.buffer.push(c), expected: true, ..st })
            },
        }
    }
}

/// The result of the pass over `s` that stands before character `i` in state `st`.
#[verifier::opaque]
pub open spec fn run(
    s: Seq<char>,
    i: int,
    st: State,
    env: Map<Seq<char>, Type>,
    facts: Seq<Fact>,
) -> Result<Value, Halted>
    decreases s.len(), s.len() - i,
    via run_decreases
{
    if i < 0 || i >= s.len() {
        finish(st, env, facts)
    } else {
        match step(s[i], i, st, env, facts) {
            Step::Next(next) => run(s, i + 1, next, env, facts),
            Step::Stop(halt) => Err(halt),
            Step::Group => match run(
                s.subrange(st.opened as int + 1, i),
                0,
                State::fresh(),
                env,
                facts,
            ) {
                Err(halt) => Err(halt),
                Ok(value) => run(
                    s,
                    i + 1,
                    State { depth: 0, operand: Some(value), expected: true, ..st },
                    env,
                    facts,
                ),
            },
            Step::Rest(right, operator) => match run(
                s,
                i + 1,
                State::resumed(right, operator),
                env,
                facts,
            ) {
                Err(halt) => Err(halt),
                Ok(rest) => join(st.pending, rest, facts),
            },
        }
    }
}

#[via_fn]
proof fn run_decreases(
    s: Seq<char>,
    i: int,
    st: State,
    env: Map<Seq<char>, Type>,
    facts: Seq<Fact>,
) {
    reveal(step);
}

/// A pass that has reached the end of the expression gives its result.
pub proof fn lemma_run_end(
    s: Seq<char>,
    i: int,
    st: State,
    env: Map<Seq<char>, Type>,
    facts: Seq<Fact>,
)
    requires
        !(0 <= i < s.len()),
    ensures
        run(s, i, st, env, facts) == finish(st, env, facts),
{
    reveal(run);
}

/// A pass that stands before a character takes the step of that character.
pub proof fn lemma_run_step(
    s: Seq<char>,
    i: int,
    st: State,
    env: Map<Seq<char>, Type>,
    facts: Seq<Fact>,
)
    requires
        0 <= i < s.len(),
    ensures
        run(s, i, st, env, facts) == match step(s[i], i, st, env, facts) {
            Step::Next(next) => run(s, i + 1, next, env, facts),
            Step::Stop(halt) => Err(halt),
            Step::Group => match run(
                s.subrange(st.opened as int + 1, i),
                0,
                State::fresh(),
                env,
                facts,
            ) {
                Err(halt) => Err(halt),
                Ok(value) => run(
                    s,
                    i + 1,
                    State { depth: 0, operand: Some(value), expected: true, ..st },
                    env,
                    facts,
                ),
            },
            Step::Rest(right, operator) => match run(
                s,
                i + 1,
                State::resumed(right, operator),
                env,
                facts,
            ) {
                Err(halt) => Err(halt),
                Ok(rest) => join(st.pending, rest, facts),
            },
        },
{
    reveal(run);
}

/// The value of an expression, given the variables and the facts about reals.
pub open spec fn evaluate(expression: Seq<char>, env: Map<Seq<char>, Type>, facts: Seq<Fact>) -> Result<
    Value,
    Halted,
> {
    run(expression, 0, State::fresh(), env, facts)
}

/// A step keeps a state sound.
pub proof fn lemma_step_sound(
    c: char,
    i: int,
    st: State,
    env: Map<Seq<char>, Type>,
    facts: Seq<Fact>,
)
    requires
        st.sound(),
    ensures
        step(c, i, st, env, facts) matches Step::Next(next) ==> next.sound(),
{
    reveal(step);
}

/// An operand that a pass holds, as contracts speak of it.
pub open spec fn seen(operand: Option<Type>) -> Option<Value> {
    match operand {
        Some(value) => Some(value@),
        None => None,
    }
}

/// An accumulated value and its waiting operator, as contracts speak of them.
pub open spec fn held(pending: Option<(Type, Operator)>) -> Option<(Value, Operator)> {
    match pending {
        Some((left, operator)) => Some((left@, operator)),
        None => None,
    }
}

/// An empty table of variables.
pub fn vars_init() -> (vars: Variables)
    ensures
        vars@ == Map::<Seq<char>, Type>::empty(),
{
    StringHashMap::new()
}

/// The value of an operand token: the value bound to it where it names a variable,
/// else the value that it stands for as a literal.
pub fn var_or_string(
    operand: &Vec<char>,
    vars: Option<&Variables>,
    reals: &RealTable,
) -> (r: Result<Type, Halt>)
    ensures
        viewed(r) == resolve(operand@, bindings(vars), reals@),
{
    match vars {
        Some(map) => {
            let name = string_of(operand);
            match map.get(name.as_str()) {
                Some(value) => Ok(value.clone()),
                None => coerce_chars(operand, reals),
            }
        },
        None => coerce_chars(operand, reals),
    }
}

/// Joins `right` to the accumulated value: `right` itself where nothing was
/// accumulated, else what the waiting operator gives on the two.
pub fn handle_op(pending: Option<(Type, Operator)>, right: Type, reals: &RealTable) -> (r: Result<
    Type,
    Halt,
>)
    ensures
        viewed(r) == join(held(pending), right@, reals@),
{
    reveal(apply);
    match pending {
        None => Ok(right),
        Some((left, operator)) => match operator {
            Operator::Add => left.add(right, reals),
            Operator::Sub => left.sub(right, reals),
            Operator::Mul => left.mul(right, reals),
            Operator::Div => left.div(right, reals),
            Operator::Rem => left.rem(right, reals),
        },
    }
}

/// The state of a pass.
struct Scan {
    buffer: Vec<char>,
    operand: Option<Type>,
    pending: Option<(Type, Operator)>,
    depth: usize,
    opened: usize,
    expected: bool,
}

impl View for Scan {
    type V = State;

    closed spec fn view(&self) -> State {
        State {
            buffer: self.buffer@,
            operand: seen(self.operand),
            pending: held(self.pending),
            depth: self.depth as nat,
            opened: self.opened as nat,
            expected: self.expected,
        }
    }
}

/// What one character does to a pass.
enum Move {
    Next,
    Stop(Halt),
    Group,
    Rest(Type, Operator),
}

impl Move {
    /// The move is `step`, and `after` is the state that the pass is in once it has
    /// been made from `before`.
    spec fn agrees(self, step: Step, before: State, after: State) -> bool {
        match self {
            Move::Next => step == Step::Next(after),
            Move::Stop(halt) => step == Step::Stop(halt@),
            Move::Group => step == Step::Group && after == before,
            Move::Rest(right, operator) => step == Step::Rest(right@, operator) && after == before,
        }
    }
}

impl Scan {
    /// The state in which a pass begins.
    fn begin(seed: Option<(Type, Operator)>) -> (scan: Scan)
        ensures
            scan@ == State::seeded(held(seed)),
    {
        let operand = match &seed {
            Some((first, _)) => Some(first.clone()),
            None => None,
        };
        Scan { buffer: Vec::new(), operand, pending: seed, depth: 0, opened: 0, expected: false }
    }

    /// Takes the character `c`, met at position `i`.
    fn step(
        &mut self,
        c: char,
        i: usize,
        vars: Option<&Variables>,
        reals: &RealTable,
    ) -> (m: Move)
        requires
            old(self)@.sound(),
            old(self).depth <= i < usize::MAX,
            old(self).depth > 0 ==> old(self).opened < i,
        ensures
            m.agrees(
                step(c, i as int, old(self)@, bindings(vars), reals@),
                old(self)@,
                final(self)@,
            ),
            final(self).depth <= i + 1,
            final(self).depth > 0 ==> final(self).opened <= i,
            m is Group ==> old(self).opened + 1 < i,
    {
        reveal(step);
        if self.depth > 0 {
            if c == '(' {
                self.depth += 1;
            } else if c == ')' {
                if self.depth > 1 {
                    self.depth -= 1;
                } else if i <= self.opened || i - self.opened <= 1 {
                    self.depth = 0;
                } else {
                    return Move::Group;
                }
            }
            return Move::Next;
        }
        match Operator::from_char(c) {
            Some(operator) => {
                if !self.expected {
                    match operator {
                        Operator::Sub => {
                            self.buffer.push('-');
                            Move::Next
                        },
                        _ => {
                            let previous = match &self.pending {
                                Some((_, waiting)) => Some(*waiting),
                                None => None,
                            };
                            Move::Stop(
                                Halt::Failed(
                                    EvalError::UnexpectedOperator { previous, found: operator },
                                ),
                            )
                        },
                    }
                } else {
                    let right = if self.buffer.len() > 0 {
                        match var_or_string(&self.buffer, vars, reals) {
                            Ok(value) => value,
                            Err(halt) => {
                                return Move::Stop(halt);
                            },
                        }
                    } else {
                        match &self.operand {
                            Some(value) => value.clone(),
                            None => vstd::pervasive::unreached(),
                        }
                    };
                    let looser_waits = match &self.pending {
                        Some((_, waiting)) => !waiting.binds_tighter(),
                        None => false,
                    };
                    if operator.binds_tighter() && looser_waits {
                        return Move::Rest(right, operator);
                    }
                    let pending = self.pending.take();
                    match handle_op(pending, right.clone(), reals) {
                        Err(halt) => Move::Stop(halt),
                        Ok(total) => {
                            self.buffer = Vec::new();
                            self.operand = Some(right);
                            self.pending = Some((total, operator));
                            self.expected = false;
                            Move::Next
                        },
                    }
                }
            },
            None => {
                if c == '(' {
                    self.depth = 1;
                    self.opened = i;
                    Move::Next
                } else if c == ')' {
                    Move::Stop(Halt::Failed(EvalError::UnbalancedParentheses(Missing::Opening)))
                } else if c == ' ' {
                    Move::Next
                } else {
                    self.buffer.push(c);
                    self.expected = true;
                    Move::Next
                }
            },
        }
    }

    /// Ends the pass.
    fn finish(self, vars: Option<&Variables>, reals: &RealTable) -> (r: Result<
        Type,
        Halt,
    >)
        ensures
            viewed(r) == finish(self@, bindings(vars), reals@),
    {
        let lone_minus = self.buffer.len() == 1 && self.buffer[0] == '-';
        proof {
            if lone_minus {
                assert(self.buffer@ =~= seq!['-']);
            }
        }
        let last: Option<Type> = if self.buffer.len() == 0 {
            self.operand
        } else {
            let token = if lone_minus {
                let mut minus_one: Vec<char> = Vec::new();
                minus_one.push('-');
                minus_one.push('1');
                assert(minus_one@ =~= seq!['-', '1']);
                minus_one
            } else {
                self.buffer
            };
            match var_or_string(&token, vars, reals) {
                Ok(value) => Some(value),
                Err(halt) => {
                    return Err(halt);
                },
            }
        };
        match last {
            None => {
                if self.depth != 0 {
                    Err(Halt::Failed(EvalError::UnbalancedParentheses(Missing::Closing)))
                } else {
                    match self.pending {
                        Some((left, _)) => Ok(left),
                        None => Err(Halt::Failed(EvalError::EmptyExpression)),
                    }
                }
            },
            Some(right) => {
                let waiting = match self.pending {
                    Some((left, operator)) => Some(
                        (
                            left,
                            if lone_minus {
                                Operator::Mul
                            } else {
                                operator
                            },
                        ),
                    ),
                    None => None,
                };
                match handle_op(waiting, right, reals) {
                    Err(halt) => Err(halt),
                    Ok(total) => {
                        if self.depth != 0 {
                            Err(Halt::Failed(EvalError::UnbalancedParentheses(Missing::Closing)))
                        } else {
                            Ok(total)
                        }
                    },
                }
            },
        }
    }
}

/// The pass over `s` from character `start` on: a fresh one, or one that starts from
/// an operand and the operator that follows it.
fn scan(
    s: &Vec<char>,
    start: usize,
    seed: Option<(Type, Operator)>,
    vars: Option<&Variables>,
    reals: &RealTable,
) -> (r: Result<Type, Halt>)
    requires
        start <= s.len(),
    ensures
        viewed(r) == run(s@, start as int, State::seeded(held(seed)), bindings(vars), reals@),
    decreases s@.len(), s@.len() - start,
{
    let ghost env = bindings(vars);
    let ghost facts = reals@;
    let ghost goal = run(s@, start as int, State::seeded(held(seed)), env, facts);
    let mut state = Scan::begin(seed);
    let mut i: usize = start;
    while i < s.len()
        invariant
            start <= i <= s.len(),
            state.depth <= i,
            state.depth > 0 ==> state.opened < i,
            env == bindings(vars),
            facts == reals@,
            state@.sound(),
            goal == run(s@, start as int, State::seeded(held(seed)), env, facts),
            goal == run(s@, i as int, state@, env, facts),
        decreases s.len() - i,
    {
        let ghost before = state@;
        proof {
            lemma_step_sound(s@[i as int], i as int, before, env, facts);
            lemma_run_step(s@, i as int, before, env, facts);
        }
        match state.step(s[i], i, vars, reals) {
            Move::Next => {},
            Move::Stop(halt) => {
                return Err(halt);
            },
            Move::Group => {
                let group = slice_of(s, state.opened + 1, i);
                match scan(&group, 0, None, vars, reals) {
                    Err(halt) => {
                        return Err(halt);
                    },
                    Ok(value) => {
                        state.depth = 0;
                        state.operand = Some(value);
                        state.expected = true;
                    },
                }
            },
            Move::Rest(right, operator) => {
                let rest = match scan(s, i + 1, Some((right, operator)), vars, reals) {
                    Ok(value) => value,
                    Err(halt) => {
                        return Err(halt);
                    },
                };
                return handle_op(state.pending, rest, reals);
            },
        }
        i += 1;
    }
    proof {
        lemma_run_end(s@, i as int, state@, env, facts);
    }
    state.finish(vars, reals)
}

/// Evaluates an expression.
///
/// `vars` binds names to values; a token that is bound stands for its value, whatever
/// it looks like. `reals` holds what is known about reals. The result is the value of
/// the expression, or why there is none: the expression is wrong, or the table cannot
/// answer a question that the evaluation has met. In the latter case the evaluation
/// can be run again once the answer has been recorded.
pub fn eval(equation: &str, vars: Option<&Variables>, reals: &RealTable) -> (r: Result<
    Type,
    Halt,
>)
    ensures
        viewed(r) == evaluate(equation@, bindings(vars), reals@),
{
    let chars = chars_of(equation);
    scan(&chars, 0, None, vars, reals)
}

} // verus!
