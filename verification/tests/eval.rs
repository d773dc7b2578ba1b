use latex_analyzer::config::Config;
use latex_analyzer::exec::{
    lookup_var, parse_binding, parse_var, plan_call, resolve, string_to_known, strings_to_known,
    Error, Exec, Step,
};
use latex_analyzer::function::{Catalog, EvalError, FunctionRef};
use latex_analyzer::lex::{Lex, LexError};
use latex_analyzer::number::{has_even_whole_text, is_negative_text, is_number_text, is_zero_text};
use latex_analyzer::parser::ParseError;
use latex_analyzer::ast::BuildError;

fn s(text: &str) -> String {
    text.to_string()
}

fn list(texts: &[&str]) -> Vec<String> {
    texts.iter().map(|t| t.to_string()).collect()
}

fn num(text: &str) -> Step {
    Step::Number(text.to_string())
}

fn plan_with(text: &str, high_accuracy: bool) -> Result<Vec<Step>, EvalError> {
    let exec = Exec::from_lex(Lex::new(text.to_string()));
    exec.plan(&Catalog::new(), &Config { high_accuracy })
}

fn plan(text: &str) -> Result<Vec<Step>, EvalError> {
    plan_with(text, false)
}

fn value(text: &str) -> f64 {
    text.parse::<f64>().unwrap()
}

fn call(f: &FunctionRef, optional: &[f64], required: &[f64]) -> Option<f64> {
    match f {
        FunctionRef::Frac => {
            if required[1] == 0.0 {
                None
            } else {
                Some(required[0] / required[1])
            }
        }
        FunctionRef::Sqrt => {
            let n = optional[0] as i32;
            if required[0] < 0.0 && n % 2 == 0 {
                None
            } else if n == 0 {
                Some(1.0)
            } else {
                Some(required[0].powf(1.0 / n as f64))
            }
        }
        FunctionRef::Int => Some(
            (optional[1] - optional[0]) / 6.0 * (required[0] + 4.0 * required[1] + required[2]),
        ),
        FunctionRef::Sum => Some(required.iter().sum()),
        FunctionRef::Extern(_) => None,
    }
}

fn run(steps: &[Step]) -> Option<f64> {
    let mut stack: Vec<f64> = Vec::new();
    for step in steps {
        match step {
            Step::Number(text) => stack.push(value(text)),
            Step::Call(f, optional, required) => {
                let optional: Vec<f64> = optional.iter().map(|t| value(t)).collect();
                let required: Vec<f64> = required.iter().map(|t| value(t)).collect();
                stack.push(call(f, &optional, &required)?);
            }
            operator => {
                let b = stack.pop()?;
                let a = stack.pop()?;
                stack.push(match operator {
                    Step::Add => a + b,
                    Step::Sub => a - b,
                    Step::Times => a * b,
                    Step::Div => a / b,
                    Step::Power => num::pow(a, b as usize),
                    _ => a.powf(b),
                });
            }
        }
    }
    if stack.len() == 1 {
        stack.pop()
    } else {
        None
    }
}

fn round(u: f64, d: u32) -> f64 {
    let scale = 10_i32.pow(d) as f64;
    (u * scale).round() / scale
}

#[test]
fn string_to_known_test() {
    let s1 = "-2".to_string();
    let r1 = string_to_known(&s1).unwrap();
    assert_eq!(value(&r1), -2.0);

    let s2 = "2.1".to_string();
    let r2 = string_to_known(&s2).unwrap();
    assert_eq!(value(&r2), 2.1);

    let s3 = "-0.110".to_string();
    let r3 = string_to_known(&s3).unwrap();
    assert_eq!(value(&r3), -0.11);

    let s4 = "01.2".to_string();
    let r4 = string_to_known(&s4).unwrap();
    assert_eq!(value(&r4), 1.2);
}

#[test]
fn number_grammar() {
    for text in ["0", "-2", "2.1", "-0.110", "01.2", "12345678901234567890.5"] {
        assert!(is_number_text(&s(text)), "{}", text);
    }
    for text in ["", "-", ".", "1.", ".5", "-.5", "1.2.3", "a1", "1a", "+1", "1e5", "--1", " 1", "1 "] {
        assert!(!is_number_text(&s(text)), "{}", text);
    }
    assert_eq!(strings_to_known(&list(&["1", "-2.5"])), Some(list(&["1", "-2.5"])));
    assert_eq!(strings_to_known(&list(&[])), Some(list(&[])));
    assert_eq!(strings_to_known(&list(&["1", "x"])), None);
    assert_eq!(string_to_known(&s("x")), None);
    assert_eq!(string_to_known(&s("a1")), None);
}

#[test]
fn bindings_split_at_the_first_equal_sign() {
    assert_eq!(parse_binding(&s("a=1")), Ok((s("a"), s("1"))));
    assert_eq!(parse_binding(&s("  a  =  -1.5  ")), Ok((s("a"), s("-1.5"))));
    assert_eq!(parse_binding(&s("a b=2")), Ok((s("a b"), s("2"))));
    assert_eq!(parse_binding(&s("a")), Err(EvalError::MalformedVariableBinding));
    assert_eq!(parse_binding(&s("a=")), Err(EvalError::MalformedVariableBinding));
    assert_eq!(parse_binding(&s("a=b")), Err(EvalError::MalformedVariableBinding));
    assert_eq!(parse_binding(&s("a=1=2")), Err(EvalError::MalformedVariableBinding));
    assert_eq!(parse_binding(&s("a=1 2")), Err(EvalError::MalformedVariableBinding));
    assert_eq!(
        parse_var(&list(&["a=1", "b = 2"])),
        Ok(vec![(s("a"), s("1")), (s("b"), s("2"))])
    );
    assert_eq!(parse_var(&list(&["a=1", "b"])), Err(EvalError::MalformedVariableBinding));
}

#[test]
fn the_last_binding_of_a_name_wins() {
    let vars = parse_var(&list(&["a=1", "b=2", "a=3"])).unwrap();
    assert_eq!(lookup_var(&vars, &s("a")), Some(s("3")));
    assert_eq!(lookup_var(&vars, &s("b")), Some(s("2")));
    assert_eq!(lookup_var(&vars, &s("c")), None);
    assert_eq!(resolve(&vars, &s("a")), Some(s("3")));
    assert_eq!(resolve(&vars, &s("7")), Some(s("7")));
    assert_eq!(resolve(&vars, &s("c")), None);
}

#[test]
fn get_function_test() {
    let catalog = Catalog::new();
    let fun = catalog.get_function(&"frac".to_string()).unwrap();
    assert_eq!(fun, FunctionRef::Frac);
    assert_eq!(call(&fun, &[], &[1.0, 2.0]).unwrap(), 0.5);
}

#[test]
fn register_function_test() {
    let mut catalog = Catalog::new();
    let index = catalog.register_extern_function(s("double"));
    assert_eq!(index, 0);
    let fun = catalog.get_function(&"double".to_string()).unwrap();
    assert_eq!(fun, FunctionRef::Extern(0));
    assert_eq!(catalog.len(), 1);
}

#[test]
fn built_ins_are_found_first() {
    let mut catalog = Catalog::new();
    assert_eq!(catalog.get_function(&s("frac")), Ok(FunctionRef::Frac));
    assert_eq!(catalog.get_function(&s("sqrt")), Ok(FunctionRef::Sqrt));
    assert_eq!(catalog.get_function(&s("int")), Ok(FunctionRef::Int));
    assert_eq!(catalog.get_function(&s("sum")), Ok(FunctionRef::Sum));
    assert_eq!(catalog.get_function(&s("qrt")), Err(EvalError::UnknownFunction));
    assert_eq!(catalog.register_extern_function(s("frac")), 0);
    assert_eq!(catalog.register_extern_function(s("qrt")), 1);
    assert_eq!(catalog.register_extern_function(s("qrt")), 2);
    assert_eq!(catalog.get_function(&s("frac")), Ok(FunctionRef::Frac));
    assert_eq!(catalog.get_function(&s("qrt")), Ok(FunctionRef::Extern(1)));
}

#[test]
fn argument_counts() {
    assert!(FunctionRef::Frac.accepts(0, 2));
    assert!(!FunctionRef::Frac.accepts(5, 1));
    assert!(FunctionRef::Sqrt.accepts(1, 1));
    assert!(!FunctionRef::Sqrt.accepts(0, 1));
    assert!(!FunctionRef::Sqrt.accepts(1, 0));
    assert!(FunctionRef::Int.accepts(2, 3));
    assert!(!FunctionRef::Int.accepts(2, 2));
    assert!(!FunctionRef::Int.accepts(1, 3));
    assert!(FunctionRef::Sum.accepts(0, 1));
    assert!(!FunctionRef::Sum.accepts(0, 0));
    assert!(FunctionRef::Extern(3).accepts(0, 0));
}

#[test]
fn calls_take_numbers_only() {
    let catalog = Catalog::new();
    assert_eq!(
        plan_call(&catalog, &s("frac"), &list(&[]), &list(&["1", "2"])),
        Ok(Step::Call(FunctionRef::Frac, list(&[]), list(&["1", "2"])))
    );
    assert_eq!(
        plan_call(&catalog, &s("frac"), &list(&[]), &list(&["1", "k"])),
        Err(EvalError::ArgumentDomainError)
    );
    assert_eq!(
        plan_call(&catalog, &s("sqrt"), &list(&["n"]), &list(&["4"])),
        Err(EvalError::ArgumentDomainError)
    );
    assert_eq!(
        plan_call(&catalog, &s("int"), &list(&["1", "2"]), &list(&["1", "2.25"])),
        Err(EvalError::ArgumentDomainError)
    );
    assert_eq!(
        plan_call(&catalog, &s("sum"), &list(&[]), &list(&[])),
        Err(EvalError::ArgumentDomainError)
    );
    assert_eq!(
        plan_call(&catalog, &s("nope"), &list(&[]), &list(&["x"])),
        Err(EvalError::UnknownFunction)
    );
}

#[test]
fn arithmetic_follows_precedence() {
    let text = "a + b * (c - d) / e\\var{a=1}\\var{b=2}\\var{c=5}\\var{d=3}\\var{e=4}";
    let steps = plan(text).unwrap();
    assert_eq!(
        steps,
        vec![
            num("1"),
            num("2"),
            num("5"),
            num("3"),
            Step::Sub,
            Step::Times,
            num("4"),
            Step::Div,
            Step::Add,
        ]
    );
    assert_eq!(run(&steps), Some(2.0));
}

#[test]
fn exec_test1() {
    let steps = plan("\\frac{1}{2} + \\sqrt[3]{4} - \\frac{1}{3}").unwrap();
    assert_eq!(
        steps,
        vec![
            Step::Call(FunctionRef::Frac, list(&[]), list(&["1", "2"])),
            Step::Call(FunctionRef::Sqrt, list(&["3"]), list(&["4"])),
            Step::Add,
            Step::Call(FunctionRef::Frac, list(&[]), list(&["1", "3"])),
            Step::Sub,
        ]
    );
    assert_eq!(round(run(&steps).unwrap(), 3), 1.754);
}

#[test]
fn exec_test2() {
    let steps = plan_with("2^2", false).unwrap();
    assert_eq!(steps, vec![num("2"), num("2"), Step::Power]);
    assert_eq!(run(&steps).unwrap(), 4.0);
    let steps = plan_with("2^2", true).unwrap();
    assert_eq!(steps, vec![num("2"), num("2"), Step::PrecisePower]);
    assert_eq!(run(&steps).unwrap(), 4.0);
}

#[test]
fn exec_test4() {
    let steps = plan("a+1\\var{a=1}").unwrap();
    assert_eq!(steps, vec![num("1"), num("1"), Step::Add]);
    assert_eq!(run(&steps).unwrap(), 2.0);
}

#[test]
fn unregistered_name_is_unknown_function() {
    assert_eq!(plan("\\frac{1}{2} + \\qrt[3]{4}"), Err(EvalError::UnknownFunction));
}

#[test]
fn unbound_name_is_unknown_symbol() {
    assert_eq!(plan("a+1"), Err(EvalError::UnknownSymbol));
    assert_eq!(plan("2^n"), Err(EvalError::UnknownSymbol));
    assert_eq!(plan("a1 + 1\\var{a1=2}"), Ok(vec![num("2"), num("1"), Step::Add]));
}

#[test]
fn arguments_do_not_fall_back_to_variables() {
    assert_eq!(plan("\\frac{a}{2}\\var{a=1}"), Err(EvalError::ArgumentDomainError));
    assert_eq!(plan("a / 2\\var{a=1}"), Ok(vec![num("1"), num("2"), Step::Div]));
}

#[test]
fn the_left_failure_comes_first() {
    assert_eq!(plan("a + \\qrt{1}"), Err(EvalError::UnknownSymbol));
    assert_eq!(plan("\\qrt{1} + a"), Err(EvalError::UnknownFunction));
}

#[test]
fn division_by_zero_is_left_to_the_division() {
    let steps = plan("1 / 0").unwrap();
    assert_eq!(steps, vec![num("1"), num("0"), Step::Div]);
    assert_eq!(run(&steps), Some(f64::INFINITY));
}

#[test]
fn stages_report_their_failures() {
    let compile = |text: &str| Exec::try_from_lex(Lex::new(text.to_string())).err();
    assert_eq!(compile("a # b"), Some(Error::Lex(LexError::UnreadableChar('#'))));
    assert_eq!(compile("\\int{x}"), Some(Error::Lex(LexError::MissingBounds)));
    assert_eq!(compile("a = b"), Some(Error::Parse(ParseError::UnexpectedToken)));
    assert_eq!(compile("(a"), Some(Error::Parse(ParseError::UnbalancedGrouping)));
    assert_eq!(
        compile("\\frac{1}{2} ++ \\sqrt[3]{4}"),
        Some(Error::Build(BuildError::MissingOperand))
    );
    assert_eq!(compile("a b"), Some(Error::Build(BuildError::NotOneTree)));
    assert_eq!(compile("a\\var{a}"), Some(Error::Eval(EvalError::MalformedVariableBinding)));
    assert_eq!(compile("a\\var{a=x}"), Some(Error::Eval(EvalError::MalformedVariableBinding)));
    assert_eq!(compile("a+1\\var{a=1}"), None);
}

#[test]
fn read_config_test() {
    let config = Config::default();
    println!("high_accuracy = {}", config.high_accuracy);
    assert!(!config.high_accuracy);
}

#[test]
fn sqrt_of_a_negative_number_with_even_index_is_a_domain_error() {
    assert_eq!(plan("\\sqrt[2]{-4}"), Err(EvalError::ArgumentDomainError));
    assert_eq!(plan("\\sqrt[0]{-4}"), Err(EvalError::ArgumentDomainError));
    assert_eq!(plan("\\sqrt[2.9]{-0.5}"), Err(EvalError::ArgumentDomainError));
    let steps = plan("\\sqrt[2]{4}").unwrap();
    assert_eq!(run(&steps), Some(2.0));
    assert!(plan("\\sqrt[3]{-8}").is_ok());
    assert!(plan("\\sqrt[2]{-0.0}").is_ok());
    assert_eq!(run(&plan("\\sqrt[0]{7}").unwrap()), Some(1.0));
}

#[test]
fn frac_by_zero_is_a_domain_error() {
    assert_eq!(plan("\\frac{1}{0}"), Err(EvalError::ArgumentDomainError));
    assert_eq!(plan("\\frac{1}{0.00}"), Err(EvalError::ArgumentDomainError));
    assert_eq!(plan("\\frac{1}{-0}"), Err(EvalError::ArgumentDomainError));
    assert_eq!(run(&plan("\\frac{0}{4}").unwrap()), Some(0.0));
    assert_eq!(run(&plan("\\frac{3}{2}").unwrap()), Some(1.5));
}

#[test]
fn too_few_arguments_are_a_domain_error() {
    assert_eq!(plan("\\frac{1}"), Err(EvalError::ArgumentDomainError));
    assert_eq!(plan("\\sqrt{4}"), Err(EvalError::ArgumentDomainError));
    assert_eq!(plan("\\int_1^2"), Err(EvalError::ArgumentDomainError));
    assert_eq!(plan("\\sum_1^2"), Err(EvalError::ArgumentDomainError));
}

#[test]
fn int_test() {
    let catalog = Catalog::new();
    let step = plan_call(&catalog, &s("int"), &list(&["1", "2"]), &list(&["1", "2.25", "4"]));
    let re = round(run(&[step.unwrap()]).unwrap(), 3);

    assert_eq!(re, 2.333);
}

#[test]
fn div_test() {
    let catalog = Catalog::new();
    let half = plan_call(&catalog, &s("frac"), &list(&[]), &list(&["1.0", "2.0"])).unwrap();
    assert_eq!(run(&[half]).unwrap(), 0.5);
    assert!(plan_call(&catalog, &s("frac"), &list(&[]), &list(&["1.0", "0.0"])).is_err());
}

#[test]
fn sum_adds_its_arguments() {
    let catalog = Catalog::new();
    let step = plan_call(&catalog, &s("sum"), &list(&[]), &list(&["1", "2", "3.5"])).unwrap();
    assert_eq!(run(&[step]), Some(6.5));
}

#[test]
fn signs_zeros_and_parity_of_literals() {
    for text in ["0", "-0", "0.000", "-00.0"] {
        assert!(is_zero_text(&s(text)), "{}", text);
        assert!(!is_negative_text(&s(text)), "{}", text);
    }
    for text in ["1", "0.001", "-0.1", "10", "x", ""] {
        assert!(!is_zero_text(&s(text)), "{}", text);
    }
    for text in ["-1", "-0.001", "-10.0"] {
        assert!(is_negative_text(&s(text)), "{}", text);
    }
    for text in ["1", "0.5", "-", "-x"] {
        assert!(!is_negative_text(&s(text)), "{}", text);
    }
    for text in ["0", "2", "-4", "12.7", "-10.9", "2.5"] {
        assert!(has_even_whole_text(&s(text)), "{}", text);
    }
    for text in ["1", "3.2", "-7", "21.0", "", "even"] {
        assert!(!has_even_whole_text(&s(text)), "{}", text);
    }
}

#[test]
fn messages_name_the_rule() {
    assert_eq!(Error::Lex(LexError::UnreadableChar('#')).message(), "a character that starts no token");
    assert_eq!(Error::Lex(LexError::MissingBounds).message(), "a big operator misses its bounds");
    assert_eq!(Error::Parse(ParseError::UnbalancedGrouping).message(), "a parenthesis without its partner");
    assert_eq!(Error::Build(BuildError::NotOneTree).message(), "the tokens do not make one expression");
    assert_eq!(Error::Eval(EvalError::UnknownFunction).message(), "a function that is not known");
    assert_eq!(
        Error::Eval(EvalError::ArgumentDomainError).message(),
        "a function is not defined on its arguments"
    );
}
