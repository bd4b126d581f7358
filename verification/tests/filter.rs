use tmd::calendar::DateTime;
use tmd::filter::lexer::{lex, Token};
use tmd::filter::number::{int_arithmetic, round_to_double, ArithOp, CompareOp, Num};
use tmd::filter::parser::{show_token, Parser, Vars};
use tmd::filter::value::{flip_sign, Value};
use tmd::pattern::Pattern;

fn float_of(n: Num) -> f64 {
    match n {
        Num::Int(v) => v as f64,
        Num::Float(bits) => f64::from_bits(bits),
    }
}

fn num_of(v: f64) -> Num {
    if v.fract() == 0.0 && v.is_finite() {
        Num::Int(v as i64)
    } else {
        Num::Float(v.to_bits())
    }
}

fn arith(op: ArithOp, l: Num, r: Num) -> Num {
    let (l, r) = (float_of(l), float_of(r));
    num_of(match op {
        ArithOp::Add => l + r,
        ArithOp::Sub => l - r,
        ArithOp::Mul => l * r,
        ArithOp::Div if r == 0.0 => f64::NAN,
        ArithOp::Div => l / r,
    })
}

fn order(op: CompareOp, l: Num, r: Num) -> bool {
    let (l, r) = (float_of(l), float_of(r));
    match op {
        CompareOp::Eq => (l - r).abs() < f64::EPSILON,
        CompareOp::Ne => (l - r).abs() >= f64::EPSILON,
        CompareOp::Gt => l > r,
        CompareOp::Lt => l < r,
        CompareOp::Ge => l >= r,
        CompareOp::Le => l <= r,
    }
}

fn float_text(bits: u64) -> String {
    f64::from_bits(bits).to_string()
}

fn var(name: &str, v: i64) -> Vars {
    let mut vars = Vars::new();
    vars.insert(name.to_string(), Value::Int(v));
    vars
}

fn run(input: &str, vars: &Vars) -> Result<Value, String> {
    let mut p = Parser::try_new(input).unwrap();
    p.try_parse(vars, &arith, &order).unwrap()
}

fn truth(input: &str, vars: &Vars) -> bool {
    match run(input, vars) {
        Ok(Value::Bool(b)) => b,
        other => panic!("{input}: {other:?}"),
    }
}

fn shown(input: &str) -> String {
    run(input, &Vars::new()).unwrap().to_text(&float_text).unwrap()
}

fn error(input: &str) -> String {
    match run(input, &Vars::new()) {
        Ok(v) => panic!("{input}: {v:?}"),
        Err(text) => text,
    }
}

fn seconds(year: i32, month: u32, day: u32, hour: u32, min: u32, sec: u32) -> i64 {
    chrono::NaiveDate::from_ymd_opt(year, month, day)
        .unwrap()
        .and_hms_opt(hour, min, sec)
        .unwrap()
        .and_utc()
        .timestamp()
}

#[test]
fn byte_suffix_lexes_intact() {
    let mut p = Parser::new("10MB");
    assert!(matches!(
        p.parse(&Vars::new(), &arith, &order).unwrap(),
        Value::Int(n) if n == 10 * 1024 * 1024
    ));
}

#[test]
fn byte_suffix_in_comparison() {
    let mut p = Parser::new("file_size >= 10MB");
    assert!(matches!(
        p.parse(&var("file_size", 10 * 1024 * 1024), &arith, &order).unwrap(),
        Value::Bool(true)
    ));
    let mut p = Parser::new("file_size >= 10MB");
    assert!(matches!(
        p.parse(&var("file_size", 10), &arith, &order).unwrap(),
        Value::Bool(false)
    ));
}

#[test]
fn size_literals_are_single_numbers() {
    for (text, n) in [
        ("7B", 7),
        ("3KB", 3 << 10),
        ("2GB", 2 << 30),
        ("1TB", 1 << 40),
        ("4PB", 4 << 50),
        ("120", 120),
    ] {
        let tokens = lex(text).unwrap();
        assert_eq!(tokens.len(), 1);
        assert!(matches!(tokens[0], Token::Num(m) if m == n));
    }
}

#[test]
fn unknown_suffix_is_a_name() {
    let tokens = lex("10Mb").unwrap();
    assert_eq!(tokens.len(), 2);
    assert!(matches!(tokens[0], Token::Num(10)));
    assert!(matches!(&tokens[1], Token::Name(n) if n == "Mb"));
}

#[test]
fn sizes_beyond_the_signed_range_wrap() {
    let tokens = lex("8192PB").unwrap();
    assert!(matches!(tokens[0], Token::Num(i64::MIN)));
}

#[test]
fn numbers_beyond_64_bits_are_refused() {
    assert!(lex("9223372036854775807").is_some());
    assert!(lex("9223372036854775808").is_none());
    assert!(lex("16384PB").is_none());
    assert!(Parser::try_new("1 + 99999999999999999999").is_none());
}

#[test]
fn arithmetic_binds_as_usual() {
    assert_eq!(shown("1 + 2 * 3"), "7");
    assert_eq!(shown("(1 + 2) * 3"), "9");
    assert_eq!(shown("(1 + 2 * 3)"), shown("1 + 2 * 3"));
    assert_eq!(shown("((10 - 4) - (3))"), "3");
    assert_eq!(shown("10 - 4 - 3"), "3");
    assert_eq!(shown("100 / 5 / 2"), "10");
    assert_eq!(shown("--5"), "5");
    assert_eq!(shown("-2 * -3"), "6");
}

#[test]
fn inexact_division_gives_a_fraction() {
    assert!(matches!(run("1 / 4", &Vars::new()), Ok(Value::Float(b)) if b == 0.25f64.to_bits()));
    assert!(truth("1 / 4 < 1", &Vars::new()));
    assert!(truth("1 / 4 * 4 == 1", &Vars::new()));
    assert!(truth("1 / 3 * 3 == 1 and 1 / 3 != 1 / 4", &Vars::new()));
    assert!(truth("3 / 2 + 3 / 2 == 3 and 3 / 2 - 1 < 1", &Vars::new()));
    assert!(
        matches!(run("-(1 / 4)", &Vars::new()), Ok(Value::Float(b)) if b == (-0.25f64).to_bits())
    );
    assert_eq!(flip_sign(0.25f64.to_bits()), (-0.25f64).to_bits());
    assert_eq!(flip_sign((-0.25f64).to_bits()), 0.25f64.to_bits());
}

#[test]
fn division_by_zero_is_no_number() {
    assert!(matches!(run("1 / 0", &Vars::new()), Ok(Value::Float(b)) if f64::from_bits(b).is_nan()));
    assert!(!truth("1 / 0 == 1 / 0", &Vars::new()));
    assert!(!truth("1 / 0 != 1 / 0", &Vars::new()));
    assert!(matches!(run("1 / 4 / 0", &Vars::new()), Ok(Value::Float(b)) if f64::from_bits(b).is_nan()));
}

#[test]
fn integers_round_as_doubles_do() {
    for n in [
        0i128,
        1,
        -1,
        9007199254740991,
        9007199254740993,
        9007199254740995,
        -9007199254740993,
        9223372036854775807,
        36028797018963969,
    ] {
        assert_eq!(round_to_double(n), n as f64 as i128);
    }
    assert_eq!(
        int_arithmetic(ArithOp::Add, i64::MAX, i64::MAX),
        Some(Num::Int(i64::MAX))
    );
    assert_eq!(int_arithmetic(ArithOp::Mul, 6, 7), Some(Num::Int(42)));
    assert_eq!(int_arithmetic(ArithOp::Sub, 6, 7), Some(Num::Int(-1)));
    assert!(truth("9007199254740993 == 9007199254740992", &Vars::new()));
}

#[test]
fn comparisons_of_small_integers_are_exact() {
    let vars = var("n", 5);
    assert!(truth("n == 5", &vars));
    assert!(truth("n != 6", &vars));
    assert!(truth("n > 4", &vars));
    assert!(truth("n < 6", &vars));
    assert!(truth("n >= 5", &vars));
    assert!(truth("n <= 5", &vars));
    assert!(!truth("n < 5", &vars));
}

#[test]
fn comparisons_can_be_chained() {
    assert!(!truth("1 < 2 < 3", &Vars::new()));
}

#[test]
fn texts_compare_by_their_characters() {
    let vars = Vars::new();
    assert!(truth("'abc' == \"abc\"", &vars));
    assert!(truth("'abc' < 'abd'", &vars));
    assert!(truth("'ab' < 'abc'", &vars));
    assert!(truth("'b' > 'abc'", &vars));
    assert!(truth("'a' <= 'a' and 'a' >= 'a'", &vars));
    assert!(truth("'Z' < 'a'", &vars));
    assert!(truth("'z' < 'é'", &vars));
    assert!(truth("'a' != 'b'", &vars));
}

#[test]
fn regular_expressions_compare_by_matching() {
    let mut vars = Vars::new();
    vars.insert("caption".to_string(), Value::Str("holiday 2024".to_string()));
    assert!(truth("caption == r'\\d{4}$'", &vars));
    assert!(truth("r'^holi' == caption", &vars));
    assert!(!truth("caption != r'day'", &vars));
    assert!(!truth("caption < r'day'", &vars));
    assert!(truth("caption == r'holiday 2024('", &vars) == false);
    assert!(matches!(
        run("r'('", &vars),
        Ok(Value::Str(s)) if s == "("
    ));
}

#[test]
fn values_of_different_kinds_compare_as_false() {
    let vars = Vars::new();
    assert!(!truth("'1' == 1", &vars));
    assert!(!truth("'1' != 1", &vars));
    assert!(!truth("(1 == 1) == (1 == 1)", &vars));
}

#[test]
fn connectives_combine_truth_values() {
    let vars = Vars::new();
    assert!(truth("1 == 1 and 2 == 2", &vars));
    assert!(truth("1 == 1 AND 2 == 2", &vars));
    assert!(truth("1 == 1 && 2 == 2", &vars));
    assert!(truth("1 == 2 or 2 == 2", &vars));
    assert!(truth("1 == 2 OR 2 == 2", &vars));
    assert!(truth("1 == 2 || 2 == 2", &vars));
    assert!(truth("1 == 1 || 1 == 2 && 1 == 2", &vars));
    assert!(!truth("1 and 1", &vars));
    assert!(!truth("1 or 1", &vars));
}

#[test]
fn dates_are_points_in_time() {
    let tokens = lex("2023-01-05 10:20:30").unwrap();
    assert_eq!(tokens.len(), 1);
    let at = seconds(2023, 1, 5, 10, 20, 30);
    assert!(matches!(tokens[0], Token::Time(DateTime { secs, nanos: 0 }) if secs == at));
    let tokens = lex("2023/1/5").unwrap();
    let day = seconds(2023, 1, 5, 0, 0, 0);
    assert!(matches!(tokens[0], Token::Time(DateTime { secs, nanos: 0 }) if secs == day));
    let tokens = lex("2023.13.45").unwrap();
    assert!(matches!(&tokens[0], Token::Str(s) if s == "2023.13.45"));
}

#[test]
fn points_in_time_compare_and_are_shown() {
    let mut vars = Vars::new();
    let secs = seconds(2024, 2, 29, 1, 2, 3);
    vars.insert("media_datetime".to_string(), Value::DateTime(DateTime { secs, nanos: 0 }));
    assert!(truth("media_datetime > 1999-12-31", &vars));
    assert!(truth("media_datetime >= 2024-02-29 01:02:03", &vars));
    assert!(!truth("media_datetime > 2024-02-29 01:02:03", &vars));
    assert!(truth("media_datetime < 2024/3/1", &vars));
    assert!(truth("media_datetime == media_datetime", &vars));
    assert_eq!(
        run("media_datetime", &vars).unwrap().to_text(&float_text),
        Some("2024-02-29 01:02:03".to_string())
    );
}

#[test]
fn values_are_shown() {
    assert_eq!(shown("'a b'"), "a b");
    assert_eq!(shown("r'a+'"), "r'a+'");
    assert_eq!(shown("1 == 1"), "true");
    assert_eq!(shown("1 == 2"), "false");
    assert_eq!(shown("-12"), "-12");
    assert_eq!(shown("1 / 4"), "0.25");
    assert_eq!(shown("-(1 / 4)"), "-0.25");
    assert_eq!(shown("1 / 0"), "NaN");
    let beyond = Value::DateTime(DateTime { secs: i64::MAX, nanos: 0 });
    assert_eq!(beyond.to_text(&float_text), None);
}

#[test]
fn names_may_hold_letters_of_any_script() {
    let mut vars = Vars::new();
    vars.insert("größe_1".to_string(), Value::Int(3));
    assert!(truth("größe_1 == 3", &vars));
}

#[test]
fn unclosed_texts_run_to_the_end() {
    assert_eq!(shown("'abc"), "abc");
    assert_eq!(shown("\"a'b\""), "a'b");
}

#[test]
fn errors_say_what_is_wrong() {
    assert_eq!(error("nothing"), "undefined variable: nothing");
    assert_eq!(error("(1"), "expected ), got Eof");
    assert_eq!(error("1 2"), "unexpected token after expression: Num(2)");
    assert_eq!(error("1 'x\"y'"), "unexpected token after expression: Str(\"x\\\"y\")");
    assert_eq!(error("1 r'a'"), "unexpected token after expression: ReStr(Regex(\"a\"))");
    assert_eq!(error("1 +"), "unexpected token: Eof");
    assert_eq!(error("* 1"), "unexpected token: Star");
    assert_eq!(error(""), "unexpected token: Eof");
    assert_eq!(error("-'a'"), "cannot negate non-numeric value");
    assert_eq!(error("1 = 1"), "unexpected token after expression: Name(\"=\")");
    assert_eq!(error("1 )"), "unexpected token after expression: RParen");
    assert_eq!(error("1 >= >="), "unexpected token: Ge");
}

#[test]
fn tokens_are_shown() {
    assert_eq!(show_token(&Token::And), "And");
    assert_eq!(show_token(&Token::Or), "Or");
    assert_eq!(show_token(&Token::Plus), "Plus");
    assert_eq!(show_token(&Token::Minus), "Minus");
    assert_eq!(show_token(&Token::Slash), "Slash");
    assert_eq!(show_token(&Token::LParen), "LParen");
    assert_eq!(show_token(&Token::Compare(CompareOp::Ne)), "Ne");
    assert_eq!(
        show_token(&Token::Time(DateTime { secs: 0, nanos: 0 })),
        "Time(1970-01-01T00:00:00)"
    );
    assert_eq!(show_token(&Token::Num(-4)), "Num(-4)");
}

#[test]
fn the_least_integer_cannot_be_negated() {
    let vars = var("n", i64::MIN);
    let mut p = Parser::try_new("-n").unwrap();
    assert!(p.try_parse(&vars, &arith, &order).is_none());
}

#[test]
fn other_characters_are_names() {
    let tokens = lex("& ! | = ? %").unwrap();
    let names: Vec<String> = tokens
        .into_iter()
        .map(|t| match t {
            Token::Name(n) => n,
            other => panic!("{other:?}"),
        })
        .collect();
    assert_eq!(names, ["&", "!", "|", "=", "?", "%"]);
}

#[test]
fn patterns_compile_or_not() {
    assert!(Pattern::new("a(").is_none());
    let p = Pattern::new("^[a-c]+$").unwrap();
    assert_eq!(p.source(), "^[a-c]+$");
    assert!(p.is_match("abc"));
    assert!(!p.is_match("abd"));
}
