use calculator::error::{EvalError, Halt, TypeTag};
use calculator::operator::Operator;
use calculator::reals::{Real, RealFact, RealQuery, RealTable};
use calculator::type_enum::{real_arith, refuse, repeat_text, Type};

fn number(x: &Real) -> f64 {
    f64::from_bits(x.to_bits())
}

fn as_real(x: f64) -> Real {
    Real::from_bits(x.to_bits())
}

fn answer(query: &RealQuery) -> RealFact {
    match query {
        RealQuery::Parse(text) => RealFact::Parsed(text.clone(), text.parse::<f64>().ok().map(as_real)),
        RealQuery::Show(x) => RealFact::Shown(*x, format!("{}", number(x))),
        RealQuery::Combine(operator, l, r) => {
            let (a, b) = (number(l), number(r));
            let c = match operator {
                Operator::Add => a + b,
                Operator::Sub => a - b,
                Operator::Mul => a * b,
                Operator::Div => a / b,
                Operator::Rem => a % b,
            };
            RealFact::Combined(*operator, *l, *r, as_real(c))
        }
    }
}

fn apply(operator: Operator, left: &Type, right: &Type) -> Result<Type, EvalError> {
    let mut table = RealTable::new();
    loop {
        let (l, r) = (left.clone(), right.clone());
        let result = match operator {
            Operator::Add => l.add(r, &table),
            Operator::Sub => l.sub(r, &table),
            Operator::Mul => l.mul(r, &table),
            Operator::Div => l.div(r, &table),
            Operator::Rem => l.rem(r, &table),
        };
        match result {
            Ok(value) => return Ok(value),
            Err(Halt::Failed(error)) => return Err(error),
            Err(Halt::Pending(query)) => table.record(answer(&query)),
        }
    }
}

fn whole(i: i32) -> Type {
    Type::Int(i)
}

fn fraction(x: f64) -> Type {
    Type::Float(as_real(x))
}

fn words(s: &str) -> Type {
    Type::String(s.to_string())
}

fn is_whole(result: Result<Type, EvalError>, expected: i32) -> bool {
    matches!(result, Ok(Type::Int(i)) if i == expected)
}

fn is_fraction(result: Result<Type, EvalError>, expected: f64) -> bool {
    matches!(result, Ok(Type::Float(x)) if number(&x) == expected)
}

fn is_words(result: Result<Type, EvalError>, expected: &str) -> bool {
    matches!(result, Ok(Type::String(s)) if s == expected)
}

fn refused(result: Result<Type, EvalError>, operator: Operator, left: TypeTag, right: TypeTag) -> bool {
    result.err() == Some(EvalError::UnsupportedOperand { operator, left, right })
}

#[test]
fn addition_on_every_pair_of_kinds() {
    let op = Operator::Add;
    assert!(is_whole(apply(op, &whole(2), &whole(3)), 5));
    assert!(is_fraction(apply(op, &whole(2), &fraction(0.5)), 2.5));
    assert!(is_fraction(apply(op, &fraction(0.5), &whole(2)), 2.5));
    assert!(is_fraction(apply(op, &fraction(0.5), &fraction(0.25)), 0.75));
    assert!(is_words(apply(op, &whole(2), &words("ab")), "2ab"));
    assert!(is_words(apply(op, &fraction(2.5), &words("ab")), "2.5ab"));
    assert!(is_words(apply(op, &words("ab"), &words("cd")), "abcd"));
    assert!(is_words(apply(op, &words("ab"), &whole(-2)), "ab-2"));
    assert!(is_words(apply(op, &words("ab"), &fraction(-2.5)), "ab-2.5"));
}

#[test]
fn subtraction_on_every_pair_of_kinds() {
    let op = Operator::Sub;
    assert!(is_whole(apply(op, &whole(2), &whole(3)), -1));
    assert!(is_fraction(apply(op, &whole(2), &fraction(0.5)), 1.5));
    assert!(is_fraction(apply(op, &fraction(0.5), &whole(2)), -1.5));
    assert!(is_fraction(apply(op, &fraction(0.5), &fraction(0.25)), 0.25));
    assert!(refused(apply(op, &whole(2), &words("ab")), op, TypeTag::Int, TypeTag::String));
    assert!(refused(apply(op, &fraction(2.0), &words("ab")), op, TypeTag::Float, TypeTag::String));
    assert!(refused(apply(op, &words("ab"), &words("cd")), op, TypeTag::String, TypeTag::String));
    assert!(refused(apply(op, &words("ab"), &whole(2)), op, TypeTag::String, TypeTag::Int));
    assert!(refused(apply(op, &words("ab"), &fraction(2.0)), op, TypeTag::String, TypeTag::Float));
}

#[test]
fn multiplication_on_every_pair_of_kinds() {
    let op = Operator::Mul;
    assert!(is_whole(apply(op, &whole(2), &whole(3)), 6));
    assert!(is_fraction(apply(op, &whole(2), &fraction(0.5)), 1.0));
    assert!(is_fraction(apply(op, &fraction(0.5), &whole(2)), 1.0));
    assert!(is_fraction(apply(op, &fraction(0.5), &fraction(0.25)), 0.125));
    assert!(is_words(apply(op, &whole(2), &words("ab")), "abab"));
    assert!(is_words(apply(op, &words("ab"), &whole(3)), "ababab"));
    assert!(refused(apply(op, &fraction(2.0), &words("ab")), op, TypeTag::Float, TypeTag::String));
    assert!(refused(apply(op, &words("ab"), &fraction(2.0)), op, TypeTag::String, TypeTag::Float));
    assert!(refused(apply(op, &words("ab"), &words("cd")), op, TypeTag::String, TypeTag::String));
}

#[test]
fn division_on_every_pair_of_kinds() {
    let op = Operator::Div;
    let by_zero = Some(EvalError::DivisionByZero { operator: op });
    assert!(is_whole(apply(op, &whole(7), &whole(2)), 3));
    assert!(is_fraction(apply(op, &whole(7), &fraction(2.0)), 3.5));
    assert!(is_fraction(apply(op, &fraction(7.0), &whole(2)), 3.5));
    assert!(is_fraction(apply(op, &fraction(1.0), &fraction(0.25)), 4.0));
    assert_eq!(apply(op, &whole(7), &whole(0)).err(), by_zero);
    assert_eq!(apply(op, &whole(7), &fraction(0.0)).err(), by_zero);
    assert_eq!(apply(op, &fraction(7.0), &fraction(-0.0)).err(), by_zero);
    assert_eq!(apply(op, &fraction(7.0), &whole(0)).err(), by_zero);
    assert!(refused(apply(op, &words("ab"), &whole(0)), op, TypeTag::String, TypeTag::Int));
    assert!(refused(apply(op, &whole(1), &words("ab")), op, TypeTag::Int, TypeTag::String));
    assert!(refused(apply(op, &words("a"), &words("b")), op, TypeTag::String, TypeTag::String));
    assert!(refused(apply(op, &fraction(0.0), &words("b")), op, TypeTag::Float, TypeTag::String));
}

#[test]
fn remainder_on_every_pair_of_kinds() {
    let op = Operator::Rem;
    let by_zero = Some(EvalError::DivisionByZero { operator: op });
    assert!(is_whole(apply(op, &whole(7), &whole(4)), 3));
    assert!(is_whole(apply(op, &whole(-7), &whole(4)), -3));
    assert!(is_fraction(apply(op, &whole(7), &fraction(2.5)), 2.0));
    assert!(is_fraction(apply(op, &fraction(7.5), &whole(2)), 1.5));
    assert!(is_fraction(apply(op, &fraction(-7.5), &fraction(2.0)), -1.5));
    assert_eq!(apply(op, &whole(7), &whole(0)).err(), by_zero);
    assert_eq!(apply(op, &whole(7), &fraction(0.0)).err(), by_zero);
    assert_eq!(apply(op, &fraction(7.0), &fraction(0.0)).err(), by_zero);
    assert_eq!(apply(op, &fraction(7.0), &whole(0)).err(), by_zero);
    assert!(refused(apply(op, &words("ab"), &whole(2)), op, TypeTag::String, TypeTag::Int));
    assert!(refused(apply(op, &fraction(1.0), &words("ab")), op, TypeTag::Float, TypeTag::String));
}

#[test]
fn division_by_zero_is_found_before_any_question_is_asked() {
    let table = RealTable::new();
    assert!(matches!(
        Type::Int(1).div(fraction(0.0), &table),
        Err(Halt::Failed(EvalError::DivisionByZero { operator: Operator::Div }))
    ));
    assert!(matches!(
        fraction(1.0).rem(Type::Int(0), &table),
        Err(Halt::Failed(EvalError::DivisionByZero { operator: Operator::Rem }))
    ));
    assert!(matches!(
        Type::Int(1).div(fraction(2.0), &table),
        Err(Halt::Pending(RealQuery::Combine(Operator::Div, _, _)))
    ));
}

#[test]
fn an_integer_beside_a_real_is_promoted() {
    let table = RealTable::new();
    match real_arith(Operator::Add, &Type::Int(1), &Type::Int(2), &table) {
        Err(Halt::Pending(RealQuery::Combine(Operator::Add, l, r))) => {
            assert_eq!(number(&l), 1.0);
            assert_eq!(number(&r), 2.0);
        }
        other => panic!("{:?}", other),
    }
    match Type::Int(-3).mul(fraction(2.5), &table) {
        Err(Halt::Pending(RealQuery::Combine(Operator::Mul, l, r))) => {
            assert_eq!(number(&l), -3.0);
            assert_eq!(number(&r), 2.5);
        }
        other => panic!("{:?}", other),
    }
    match fraction(2.5).sub(Type::Int(i32::MIN), &table) {
        Err(Halt::Pending(RealQuery::Combine(Operator::Sub, l, r))) => {
            assert_eq!(number(&l), 2.5);
            assert_eq!(number(&r), -2147483648.0);
        }
        other => panic!("{:?}", other),
    }
    assert_eq!(number(&Type::Int(7).as_real()), 7.0);
    assert_eq!(number(&fraction(7.5).as_real()), 7.5);
}

#[test]
fn integer_operators_wrap() {
    assert!(is_whole(apply(Operator::Add, &whole(i32::MAX), &whole(1)), i32::MIN));
    assert!(is_whole(apply(Operator::Sub, &whole(i32::MIN), &whole(1)), i32::MAX));
    assert!(is_whole(apply(Operator::Mul, &whole(i32::MAX), &whole(2)), -2));
    assert!(is_whole(apply(Operator::Div, &whole(i32::MIN), &whole(-1)), i32::MIN));
    assert!(is_whole(apply(Operator::Rem, &whole(i32::MIN), &whole(-1)), 0));
    for (a, b) in [(7, 3), (-7, 3), (7, -3), (-7, -3), (i32::MIN, 7), (i32::MAX, -1), (0, 5)] {
        assert!(is_whole(apply(Operator::Div, &whole(a), &whole(b)), a.wrapping_div(b)));
        assert!(is_whole(apply(Operator::Rem, &whole(a), &whole(b)), a.wrapping_rem(b)));
        assert!(is_whole(apply(Operator::Mul, &whole(a), &whole(b)), a.wrapping_mul(b)));
    }
}

#[test]
fn text_repeats_as_often_as_asked() {
    assert_eq!(repeat_text("ab", 3), "ababab");
    assert_eq!(repeat_text("ab", 1), "ab");
    assert_eq!(repeat_text("ab", 0), "");
    assert_eq!(repeat_text("ab", -1), "");
    assert_eq!(repeat_text("ab", i32::MIN), "");
    assert_eq!(repeat_text("", 1000), "");
    assert_eq!(repeat_text("é", 2), "éé");
}

#[test]
fn refusal_names_operator_and_kinds() {
    match refuse(Operator::Rem, &words("a"), &fraction(1.0)) {
        Err(Halt::Failed(EvalError::UnsupportedOperand { operator, left, right })) => {
            assert_eq!(operator, Operator::Rem);
            assert_eq!(left, TypeTag::String);
            assert_eq!(right, TypeTag::Float);
            assert_eq!(left.as_str(), "String");
            assert_eq!(right.as_str(), "f64");
            assert_eq!(TypeTag::Int.as_str(), "i32");
        }
        other => panic!("{:?}", other),
    }
}

#[test]
fn kinds_and_numbers() {
    assert_eq!(whole(1).tag(), TypeTag::Int);
    assert_eq!(fraction(1.0).tag(), TypeTag::Float);
    assert_eq!(words("1").tag(), TypeTag::String);
    assert!(whole(1).is_number() && fraction(1.0).is_number() && !words("1").is_number());
    assert!(whole(0).is_zero() && fraction(-0.0).is_zero());
    assert!(!whole(1).is_zero() && !words("0").is_zero() && !words("").is_zero());
}

#[test]
fn a_clone_is_the_same_value() {
    assert!(matches!(whole(-4).clone(), Type::Int(-4)));
    assert!(matches!(fraction(1.5).clone(), Type::Float(x) if number(&x) == 1.5));
    assert!(matches!(words("a b").clone(), Type::String(s) if s == "a b"));
}

#[test]
fn operators_and_their_characters() {
    let all = [
        ('+', Operator::Add),
        ('-', Operator::Sub),
        ('*', Operator::Mul),
        ('/', Operator::Div),
        ('%', Operator::Rem),
    ];
    for (c, operator) in all {
        assert_eq!(Operator::from_char(c), Some(operator));
        assert_eq!(operator.symbol(), c);
    }
    for c in ['(', ')', ' ', 'x', '0', '^', '=', '\0'] {
        assert_eq!(Operator::from_char(c), None);
    }
    assert!(!Operator::Add.binds_tighter() && !Operator::Sub.binds_tighter());
    assert!(Operator::Mul.binds_tighter());
    assert!(Operator::Div.binds_tighter());
    assert!(Operator::Rem.binds_tighter());
}

#[test]
fn values_are_equal_as_the_numbers_and_texts_they_are() {
    assert_eq!(whole(3), whole(3));
    assert_ne!(whole(3), whole(4));
    assert_eq!(words("a"), words("a"));
    assert_ne!(words("a"), words("b"));
    assert_eq!(fraction(1.5), fraction(1.5));
    assert_ne!(fraction(1.5), fraction(2.5));
    assert_eq!(fraction(0.0), fraction(-0.0));
    assert_ne!(fraction(f64::NAN), fraction(f64::NAN));
    assert_eq!(fraction(f64::INFINITY), fraction(f64::INFINITY));
    assert_ne!(fraction(f64::INFINITY), fraction(f64::NEG_INFINITY));
    assert_ne!(whole(1), fraction(1.0));
    assert_ne!(whole(1), words("1"));
    assert_ne!(fraction(1.0), words("1"));
}

#[test]
fn equality_of_reals_agrees_with_the_machine() {
    let samples = [
        0.0,
        -0.0,
        1.0,
        -1.0,
        0.1,
        f64::MIN_POSITIVE,
        f64::MAX,
        f64::MIN,
        f64::EPSILON,
        f64::INFINITY,
        f64::NEG_INFINITY,
        f64::NAN,
        -f64::NAN,
        f64::from_bits(0x7ff0_0000_0000_0001),
        f64::from_bits(0xfff8_0000_0000_0000),
        f64::from_bits(1),
    ];
    for a in samples {
        for b in samples {
            assert_eq!(as_real(a).equals(as_real(b)), a == b, "{:?} {:?}", a, b);
        }
        assert_eq!(as_real(a).is_nan(), a.is_nan());
        assert_eq!(as_real(a).is_zero(), a == 0.0);
    }
}
