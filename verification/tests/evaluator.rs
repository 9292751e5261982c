use calculator::error::{EvalError, Halt, Missing, TypeTag};
use calculator::evaluator::{handle_op, var_or_string};
use calculator::operator::Operator;
use calculator::reals::{Real, RealFact, RealQuery, RealTable};
use calculator::text::chars_of;
use calculator::type_enum::Type;
use calculator::{eval, vars_init};

fn number(x: &Real) -> f64 {
    f64::from_bits(x.to_bits())
}

fn as_real(x: f64) -> Real {
    Real::from_bits(x.to_bits())
}

fn answer(query: &RealQuery) -> RealFact {
    match query {
        RealQuery::Parse(text) => RealFact::Parsed(text.clone(), text.parse::<f64>().ok().map(as_real)),
        RealQuery::Show(x) => RealFact::Shown(*x, format!("{}", number(x))),
        RealQuery::Combine(operator, l, r) => {
            let (a, b) = (number(l), number(r));
            let c = match operator {
                Operator::Add => a + b,
                Operator::Sub => a - b,
                Operator::Mul => a * b,
                Operator::Div => a / b,
                Operator::Rem => a % b,
            };
            RealFact::Combined(*operator, *l, *r, as_real(c))
        }
    }
}

fn evaluate(equation: &str) -> Result<Type, EvalError> {
    let mut table = RealTable::new();
    loop {
        match eval(equation, None, &table) {
            Ok(value) => return Ok(value),
            Err(Halt::Failed(error)) => return Err(error),
            Err(Halt::Pending(query)) => table.record(answer(&query)),
        }
    }
}

fn int_of(equation: &str) -> i32 {
    match evaluate(equation) {
        Ok(Type::Int(i)) => i,
        other => panic!("{}: {:?}", equation, other),
    }
}

fn real_of(equation: &str) -> f64 {
    match evaluate(equation) {
        Ok(Type::Float(x)) => number(&x),
        other => panic!("{}: {:?}", equation, other),
    }
}

fn text_of(equation: &str) -> String {
    match evaluate(equation) {
        Ok(Type::String(s)) => s,
        other => panic!("{}: {:?}", equation, other),
    }
}

fn error_of(equation: &str) -> EvalError {
    match evaluate(equation) {
        Err(e) => e,
        other => panic!("{}: {:?}", equation, other),
    }
}

#[test]
fn multiplication_binds_tighter_than_addition() {
    assert_eq!(int_of("2 + 3 * 4"), 14);
    assert_eq!(int_of("(2 + 3) * 4"), 20);
    assert_eq!(int_of("2 - 3 * 4"), -10);
    assert_eq!(int_of("20 - 12 / 4"), 17);
    assert_eq!(int_of("20 + 13 % 5"), 23);
    assert_eq!(int_of("1 + 2 * 3 + 4"), 11);
    assert_eq!(int_of("1 + 2 * 3 * 4 + 5"), 30);
}

#[test]
fn equal_operators_go_left_to_right() {
    assert_eq!(int_of("2 * 3 + 4"), 10);
    assert_eq!(int_of("10 - 4 - 3"), 3);
    assert_eq!(int_of("100 / 10 / 5"), 2);
    assert_eq!(int_of("100 / 10 * 5"), 50);
    assert_eq!(int_of("7 % 4 * 2"), 6);
}

#[test]
fn what_follows_a_tighter_operator_is_its_right_operand() {
    // After `+` or `-`, the rest from `*` on is evaluated as a whole, left to right.
    assert_eq!(int_of("10 - 2 * 3 + 1"), 3);
    assert_eq!(int_of("1 - 2 * 3 - 4"), -1);
}

#[test]
fn integer_division_truncates_toward_zero() {
    assert_eq!(int_of("7 / 2"), 3);
    assert_eq!(int_of("-7 / 2"), -3);
    assert_eq!(int_of("7 / -2"), -3);
    assert_eq!(int_of("-7 / -2"), 3);
    assert_eq!(int_of("0 / 5"), 0);
    assert_eq!(int_of("7 % 2"), 1);
    assert_eq!(int_of("-7 % 2"), -1);
    assert_eq!(int_of("7 % -2"), 1);
    assert_eq!(int_of("-7 % -2"), -1);
}

#[test]
fn integer_arithmetic_is_native() {
    assert_eq!(int_of("2 + 3"), 5);
    assert_eq!(int_of("2 - 3"), -1);
    assert_eq!(int_of("2 - -3"), 5);
    assert_eq!(int_of("-2 * 3"), -6);
    assert_eq!(int_of("-2 * -3"), 6);
    assert_eq!(real_of("1.5 + 2"), 3.5);
    assert_eq!(real_of("2 - 1.5"), 0.5);
    assert_eq!(real_of("1.5 * 1.5"), 2.25);
    assert_eq!(real_of("3 / 1.5"), 2.0);
    assert_eq!(real_of("5.5 % 2"), 1.5);
}

#[test]
fn integer_arithmetic_wraps() {
    assert_eq!(int_of("2147483647 + 1"), i32::MIN);
    assert_eq!(int_of("-2147483648 - 1"), i32::MAX);
    assert_eq!(int_of("65536 * 65536"), 0);
    assert_eq!(int_of("-2147483648 / -1"), i32::MIN);
    assert_eq!(int_of("-2147483648 % -1"), 0);
}

#[test]
fn multiplication_distributes_over_addition() {
    for (a, b, c) in [(2, 3, 4), (-2, 3, 4), (2, -3, -4), (0, 7, 9), (2147483647, 1, 2)] {
        let left = int_of(&format!("({} + {}) * {}", a, b, c));
        let right = int_of(&format!("{}*{} + {}*{}", a, c, b, c));
        assert_eq!(left, right);
        assert_eq!(left, (a as i32).wrapping_add(b).wrapping_mul(c));
    }
}

#[test]
fn division_by_zero_fails_as_such() {
    let div = EvalError::DivisionByZero { operator: Operator::Div };
    let rem = EvalError::DivisionByZero { operator: Operator::Rem };
    assert_eq!(error_of("1 / 0"), div);
    assert_eq!(error_of("1 % 0"), rem);
    assert_eq!(error_of("1.5 / 0"), div);
    assert_eq!(error_of("1 / 0.0"), div);
    assert_eq!(error_of("1 / -0.0"), div);
    assert_eq!(error_of("1.5 % 0.0"), rem);
    assert_eq!(error_of("(1 / 0) + 2"), div);
    assert_eq!(error_of("2 + 1 / 0 * 3"), div);
    assert_eq!(error_of("2 * (3 + (4 % 0))"), rem);
    assert_eq!(error_of("1 / 0 + + 2"), div);
}

#[test]
fn text_is_repeated_by_an_integer() {
    assert_eq!(text_of("hi * 5"), "hihihihihi");
    assert_eq!(text_of("5 * hi"), "hihihihihi");
    assert_eq!(text_of("hi * 1"), "hi");
    assert_eq!(text_of("hi * 0"), "");
    assert_eq!(text_of("hi * -2"), "");
}

#[test]
fn text_is_joined_by_addition() {
    assert_eq!(text_of("a + b"), "ab");
    assert_eq!(text_of("a + 1"), "a1");
    assert_eq!(text_of("1 + a"), "1a");
    assert_eq!(text_of("-1 + a"), "-1a");
    assert_eq!(text_of("1.5 + a"), "1.5a");
    assert_eq!(text_of("a + 1.5"), "a1.5");
    assert_eq!(text_of("a + 2.0"), "a2");
}

#[test]
fn operators_refuse_text_where_they_are_not_defined() {
    let refused = |operator, left, right| EvalError::UnsupportedOperand { operator, left, right };
    assert_eq!(error_of("a - b"), refused(Operator::Sub, TypeTag::String, TypeTag::String));
    assert_eq!(error_of("a - 1"), refused(Operator::Sub, TypeTag::String, TypeTag::Int));
    assert_eq!(error_of("1.5 - a"), refused(Operator::Sub, TypeTag::Float, TypeTag::String));
    assert_eq!(error_of("a * b"), refused(Operator::Mul, TypeTag::String, TypeTag::String));
    assert_eq!(error_of("a * 1.5"), refused(Operator::Mul, TypeTag::String, TypeTag::Float));
    assert_eq!(error_of("1.5 * a"), refused(Operator::Mul, TypeTag::Float, TypeTag::String));
    assert_eq!(error_of("a / 2"), refused(Operator::Div, TypeTag::String, TypeTag::Int));
    assert_eq!(error_of("a / 0"), refused(Operator::Div, TypeTag::String, TypeTag::Int));
    assert_eq!(error_of("2 % a"), refused(Operator::Rem, TypeTag::Int, TypeTag::String));
}

#[test]
fn variables_override_literals() {
    let mut vars = vars_init();
    vars.insert("a".to_string(), Type::Int(2));
    let table = RealTable::new();
    assert!(matches!(eval("a * 3", Some(&vars), &table), Ok(Type::Int(6))));
    assert_eq!(text_of("a * 3"), "aaa");
}

#[test]
fn a_variable_may_look_like_a_number() {
    let mut vars = vars_init();
    vars.insert("12".to_string(), Type::Int(7));
    vars.insert("-1".to_string(), Type::Int(100));
    let table = RealTable::new();
    assert!(matches!(eval("12 + 1", Some(&vars), &table), Ok(Type::Int(8))));
    assert!(matches!(eval("-", Some(&vars), &table), Ok(Type::Int(100))));
    assert!(matches!(eval("-", None, &table), Ok(Type::Int(-1))));
}

#[test]
fn variables_hold_values_of_every_kind() {
    let mut vars = vars_init();
    vars.insert("x".to_string(), Type::Int(42));
    vars.insert("y".to_string(), Type::Float(as_real(3.14)));
    vars.insert("name".to_string(), Type::String("ab".to_string()));
    let mut table = RealTable::new();
    let result = loop {
        match eval("2 * x + y", Some(&vars), &table) {
            Err(Halt::Pending(query)) => table.record(answer(&query)),
            other => break other,
        }
    };
    match result {
        Ok(Type::Float(z)) => assert_eq!(number(&z), 84.0 + 3.14),
        other => panic!("{:?}", other),
    }
    match eval("name * 2 + x", Some(&vars), &table) {
        Ok(Type::String(s)) => assert_eq!(s, "abab42"),
        other => panic!("{:?}", other),
    }
}

#[test]
fn a_result_can_become_a_variable() {
    let mut vars = vars_init();
    let table = RealTable::new();
    let result = eval("2 * (3 + 4)", None, &table).unwrap();
    assert!(matches!(result, Type::Int(14)));
    vars.insert(String::from("a"), result.clone());
    assert!(matches!(eval("a * 2", Some(&vars), &table), Ok(Type::Int(28))));
}

#[test]
fn malformed_expressions_fail() {
    assert_eq!(
        error_of("2 + + 3"),
        EvalError::UnexpectedOperator { previous: Some(Operator::Add), found: Operator::Add }
    );
    assert_eq!(error_of("(2 + 3"), EvalError::UnbalancedParentheses(Missing::Closing));
    assert_eq!(error_of(""), EvalError::EmptyExpression);
}

#[test]
fn every_kind_of_error_has_its_input() {
    assert_eq!(error_of("   "), EvalError::EmptyExpression);
    assert_eq!(error_of("()"), EvalError::EmptyExpression);
    assert_eq!(error_of(")"), EvalError::UnbalancedParentheses(Missing::Opening));
    assert_eq!(error_of("2 + 3)"), EvalError::UnbalancedParentheses(Missing::Opening));
    assert_eq!(error_of("((2 + 3)"), EvalError::UnbalancedParentheses(Missing::Closing));
    assert_eq!(error_of("2 ("), EvalError::UnbalancedParentheses(Missing::Closing));
    assert_eq!(
        error_of("* 3"),
        EvalError::UnexpectedOperator { previous: None, found: Operator::Mul }
    );
    assert_eq!(
        error_of("2 * / 3"),
        EvalError::UnexpectedOperator { previous: Some(Operator::Mul), found: Operator::Div }
    );
    assert_eq!(
        error_of("2 - % 3"),
        EvalError::UnexpectedOperator { previous: Some(Operator::Sub), found: Operator::Rem }
    );
    assert_eq!(
        error_of("a / b"),
        EvalError::UnsupportedOperand {
            operator: Operator::Div,
            left: TypeTag::String,
            right: TypeTag::String
        }
    );
    assert_eq!(error_of("4 / 0"), EvalError::DivisionByZero { operator: Operator::Div });
    assert_eq!(error_of("4 % 0"), EvalError::DivisionByZero { operator: Operator::Rem });
}

#[test]
fn the_first_error_wins() {
    assert_eq!(
        error_of("2 + + (3"),
        EvalError::UnexpectedOperator { previous: Some(Operator::Add), found: Operator::Add }
    );
    assert_eq!(error_of("2 ) + + 3"), EvalError::UnbalancedParentheses(Missing::Opening));
    assert_eq!(error_of("(1 % 0) + ("), EvalError::DivisionByZero { operator: Operator::Rem });
    assert_eq!(error_of("1 / 0 ("), EvalError::DivisionByZero { operator: Operator::Div });
}

#[test]
fn a_minus_where_an_operand_is_due_belongs_to_the_literal() {
    assert_eq!(int_of("-3"), -3);
    assert_eq!(int_of("2 * -3"), -6);
    assert_eq!(int_of("2 - -3"), 5);
    assert_eq!(int_of("2 + -3 * 4"), -10);
    assert_eq!(text_of("--3"), "--3");
    assert_eq!(text_of("-a"), "-a");
}

#[test]
fn a_lone_minus_at_the_end_multiplies_by_minus_one() {
    assert_eq!(int_of("-"), -1);
    assert_eq!(int_of("5 * -"), -5);
    assert_eq!(int_of("5 + -"), -5);
    assert_eq!(int_of("5 - -"), -5);
}

#[test]
fn a_minus_before_a_group_is_a_literal_of_its_own() {
    assert_eq!(text_of("- (2) + 3"), "-3");
    assert_eq!(int_of("-(2)"), -1);
}

#[test]
fn an_empty_group_is_skipped() {
    assert_eq!(int_of("()212"), 212);
    assert_eq!(int_of("2 + () 3"), 5);
    assert_eq!(int_of("2 () + 3"), 5);
    assert_eq!(error_of("(())"), EvalError::EmptyExpression);
}

#[test]
fn groups_nest() {
    assert_eq!(int_of("((2))"), 2);
    assert_eq!(int_of("(2 * (3 + (4 - 1)))"), 12);
    assert_eq!(int_of("2 * ((3))"), 6);
    assert_eq!(int_of("(1 + 2) * (3 + 4)"), 21);
    assert_eq!(int_of("1 + (2 + 3) * 4"), 21);
}

#[test]
fn of_two_operands_in_a_row_the_last_counts() {
    assert_eq!(int_of("(2)(3)"), 3);
    assert_eq!(int_of("2 (3)"), 2);
    assert_eq!(int_of("(2) 3 + 1"), 4);
    assert_eq!(int_of("1 2"), 12);
}

#[test]
fn the_operand_read_last_answers_a_trailing_operator() {
    assert_eq!(int_of("1 + 2 +"), 5);
    assert_eq!(int_of("3 *"), 9);
}

#[test]
fn spaces_do_not_count() {
    assert_eq!(int_of("  2+3 "), 5);
    assert_eq!(int_of("2  *  3"), 6);
    assert_eq!(int_of("1 0 + 1"), 11);
}

#[test]
fn characters_are_counted_not_bytes() {
    assert_eq!(text_of("é + (ü)"), "éü");
    assert_eq!(text_of("(日本) * 2"), "日本日本");
    assert_eq!(text_of("ñ + (1 + 2)"), "ñ3");
    assert_eq!(text_of("ä() (5)"), "ä");
}

#[test]
fn a_decimal_comma_is_a_decimal_point() {
    assert_eq!(real_of("1,5 + 1"), 2.5);
    assert_eq!(real_of("0,25 * 4"), 1.0);
}

#[test]
fn evaluation_stops_at_each_question_about_reals() {
    let mut table = RealTable::new();
    let parse = |text: &str| RealQuery::Parse(text.to_string());
    let steps: Vec<(RealQuery, RealFact)> = vec![
        (parse("1.5"), RealFact::Parsed("1.5".to_string(), Some(as_real(1.5)))),
        (
            RealQuery::Combine(Operator::Add, as_real(1.5), as_real(2.0)),
            RealFact::Combined(Operator::Add, as_real(1.5), as_real(2.0), as_real(3.5)),
        ),
    ];
    for (query, fact) in steps {
        match eval("1.5 + 2", None, &table) {
            Err(Halt::Pending(asked)) => assert_eq!(format!("{:?}", asked), format!("{:?}", query)),
            other => panic!("{:?}", other),
        }
        table.record(fact);
    }
    match eval("1.5 + 2", None, &table) {
        Ok(Type::Float(x)) => assert_eq!(number(&x), 3.5),
        other => panic!("{:?}", other),
    }
    assert_eq!(table.len(), 2);
}

#[test]
fn the_table_decides_what_reals_are() {
    // The evaluator believes the table: a table that says otherwise gives another value.
    let mut table = RealTable::new();
    table.record(RealFact::Parsed("x".to_string(), Some(as_real(4.0))));
    table.record(RealFact::Combined(Operator::Add, as_real(4.0), as_real(1.0), as_real(-1.0)));
    match eval("x + 1", None, &table) {
        Ok(Type::Float(x)) => assert_eq!(number(&x), -1.0),
        other => panic!("{:?}", other),
    }
}

#[test]
fn of_two_facts_the_older_counts() {
    let mut table = RealTable::new();
    table.record(RealFact::Shown(as_real(1.0), "one".to_string()));
    table.record(RealFact::Shown(as_real(1.0), "1".to_string()));
    table.record(RealFact::Shown(as_real(2.0), "2".to_string()));
    match table.find(&RealQuery::Show(as_real(1.0))) {
        Some(RealFact::Shown(x, text)) => {
            assert_eq!(number(x), 1.0);
            assert_eq!(text, "one");
        }
        other => panic!("{:?}", other),
    }
    match table.find(&RealQuery::Show(as_real(2.0))) {
        Some(RealFact::Shown(x, text)) => {
            assert_eq!(number(x), 2.0);
            assert_eq!(text, "2");
        }
        other => panic!("{:?}", other),
    }
    assert!(table.find(&RealQuery::Show(as_real(3.0))).is_none());
    assert!(table.find(&RealQuery::Show(as_real(-1.0))).is_none());
    assert!(table.find(&RealQuery::Parse("1".to_string())).is_none());
    assert!(matches!(table.show(as_real(1.0)), Ok(text) if text == "one"));
    assert!(matches!(table.show(as_real(3.0)), Err(Halt::Pending(RealQuery::Show(x))) if number(&x) == 3.0));
    assert!(matches!(
        table.combine(Operator::Add, as_real(1.0), as_real(2.0)),
        Err(Halt::Pending(RealQuery::Combine(Operator::Add, l, r))) if number(&l) == 1.0 && number(&r) == 2.0
    ));
    assert!(matches!(
        table.parse(&chars_of("1.0")),
        Err(Halt::Pending(RealQuery::Parse(text))) if text == "1.0"
    ));
}

#[test]
fn a_final_result_stays_when_facts_are_added() {
    let mut table = RealTable::new();
    let before = format!("{:?}", eval("(2 + 3) * 4 - 1", None, &table));
    table.record(RealFact::Shown(as_real(2.0), "99".to_string()));
    table.record(RealFact::Parsed("2".to_string(), Some(as_real(99.0))));
    assert_eq!(format!("{:?}", eval("(2 + 3) * 4 - 1", None, &table)), before);
    assert_eq!(format!("{:?}", eval("1 / 0", None, &table)), "Err(Failed(DivisionByZero { operator: Div }))");
}

#[test]
fn an_integer_is_promoted_exactly() {
    let mut samples: Vec<i32> = vec![0, 1, -1, 2, -2, 3, 5, 7, 10, 100, 255, 256, 257, 1000, 65535, 65536, 16777215, 16777216, 16777217, 123456789, -987654321, i32::MAX, i32::MIN, i32::MAX - 1, i32::MIN + 1];
    for e in 0..31 {
        let p: i32 = 1 << e;
        samples.push(p);
        samples.push(-p);
        samples.push(p.wrapping_add(1));
        samples.push(p.wrapping_sub(1));
        samples.push((-p).wrapping_add(1));
        samples.push((-p).wrapping_sub(1));
    }
    let mut x: u32 = 12345;
    for _ in 0..2000 {
        x = x.wrapping_mul(1664525).wrapping_add(1013904223);
        samples.push(x as i32);
        samples.push((x >> (x % 31)) as i32);
    }
    for i in samples {
        assert_eq!(Real::from_int(i).to_bits(), (i as f64).to_bits(), "{}", i);
    }
}

#[test]
fn a_real_is_zero_whatever_its_sign() {
    assert!(as_real(0.0).is_zero());
    assert!(as_real(-0.0).is_zero());
    assert!(!as_real(1.0).is_zero());
    assert!(!as_real(f64::MIN_POSITIVE).is_zero());
    assert!(!as_real(f64::NAN).is_zero());
    assert_eq!(as_real(1.5).to_bits(), 1.5f64.to_bits());
}

#[test]
fn an_operand_is_a_variable_or_a_literal() {
    let mut vars = vars_init();
    vars.insert("n".to_string(), Type::Int(9));
    let table = RealTable::new();
    assert!(matches!(var_or_string(&chars_of("n"), Some(&vars), &table), Ok(Type::Int(9))));
    assert!(matches!(var_or_string(&chars_of("8"), Some(&vars), &table), Ok(Type::Int(8))));
    assert!(matches!(var_or_string(&chars_of("n"), None, &table), Err(Halt::Pending(_))));
}

#[test]
fn the_first_operand_is_taken_as_it_is() {
    let table = RealTable::new();
    assert!(matches!(handle_op(None, Type::Int(5), &table), Ok(Type::Int(5))));
    assert!(matches!(
        handle_op(Some((Type::Int(7), Operator::Sub)), Type::Int(5), &table),
        Ok(Type::Int(2))
    ));
    assert!(matches!(
        handle_op(Some((Type::Int(7), Operator::Rem)), Type::Int(5), &table),
        Ok(Type::Int(2))
    ));
}

#[test]
fn errors_have_words() {
    assert_eq!(error_of("").message(), "Error: Empty equation");
    assert_eq!(error_of(")").message(), "parentheses must be opened before being closed");
    assert_eq!(error_of("(").message(), "All parentheses must be closed!");
    assert_eq!(error_of("2 + + 3").message(), "+ can't be followed by +");
    assert_eq!(error_of("2 * / 3").message(), "* can't be followed by /");
    assert_eq!(error_of("% 3").message(), "\0 can't be followed by %");
    assert_eq!(error_of("a - 1").message(), "Unable to substract i32 from String");
    assert_eq!(error_of("a * 1.5").message(), "Unable to multiply String with f64");
    assert_eq!(error_of("1.5 / a").message(), "Unable to divide f64 by String");
    assert_eq!(
        error_of("a % b").message(),
        "Cannot perform modulo operation between String and String"
    );
    assert_eq!(error_of("1 / 0").message(), "Unable to divide by zero");
    assert_eq!(
        error_of("1 % 0").message(),
        "Unable to calculate the remainder with a divisor of zero"
    );
    let never = EvalError::UnsupportedOperand {
        operator: Operator::Add,
        left: TypeTag::Int,
        right: TypeTag::Float,
    };
    assert_eq!(never.message(), "Unable to add f64 to i32");
}

#[test]
fn parentheses_around_an_expression_change_nothing() {
    let samples = [
        "", "7", "-7", "2 + 3", "2 + 3 * 4", "(2 + 3) * 4", "a + 1", "hi * 3", "1 / 0", "2 + + 3",
        "a - b", "()", "(())", "((1) + (2)) * 3", "1.5 + 2", "* 3", "-", "1 + 2 +",
    ];
    for g in samples {
        let inside = format!("{:?}", evaluate(g));
        let around = format!("{:?}", evaluate(&format!("({})", g)));
        assert_eq!(inside, around, "{:?}", g);
        let twice = format!("{:?}", evaluate(&format!("(({}))", g)));
        assert_eq!(inside, twice, "{:?}", g);
    }
}

#[test]
fn spaces_around_an_operator_change_nothing() {
    for (x, op, y) in [("7", '/', "2"), ("-7", '%', "-2"), ("a", '+', "1"), ("2", '-', "-3")] {
        let plain = format!("{:?}", evaluate(&format!("{} {} {}", x, op, y)));
        for before in 0..3 {
            for after in 0..3 {
                let spaced = format!("{}{}{}{}{}", x, " ".repeat(before), op, " ".repeat(after), y);
                assert_eq!(format!("{:?}", evaluate(&spaced)), plain, "{:?}", spaced);
            }
        }
    }
}

#[test]
fn spaces_may_stand_inside_parentheses_and_at_both_ends() {
    assert_eq!(int_of("( 1 + 2 ) * 2"), 6);
    assert_eq!(int_of("  ( 1 + 2 ) * 2  "), 6);
    assert_eq!(int_of("(  (  7  )  )"), 7);
    assert_eq!(int_of("2 * (   3 + 4 )"), 14);
    let mut vars = vars_init();
    vars.insert("hallo".to_string(), Type::Int(2));
    let table = RealTable::new();
    assert!(matches!(eval("( 1 + hallo ) * 2", Some(&vars), &table), Ok(Type::Int(6))));
}

#[test]
fn a_chain_goes_from_left_to_right_but_for_what_binds_tighter() {
    // 1 - ((2 * 3) - 4): the rest from `2` on is the right operand of the first `-`.
    assert_eq!(int_of("1 - 2 * 3 - 4"), 1 - ((2 * 3) - 4));
    // ((8 / 2) * 3) + 1: `*` after `/` joins at once.
    assert_eq!(int_of("8 / 2 * 3 + 1"), ((8 / 2) * 3) + 1);
    // 2 + (((3 * 4) * 5) + 6)
    assert_eq!(int_of("2 + 3 * 4 * 5 + 6"), 2 + (((3 * 4) * 5) + 6));
    // 20 - ((2 * (1 + 2)) + (4 * 2)): inside the rest, `+` waits again for `*`.
    assert_eq!(int_of("20 - 2 * (1 + 2) + 4 * 2"), 20 - ((2 * (1 + 2)) + (4 * 2)));
}
