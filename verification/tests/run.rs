use jsl::env::Env;
use jsl::number::{position, same_number, Position, ONE, ZERO};
use jsl::parse::{parse, tokenize, TokenCategory};
use jsl::primitive::Primitive;
use jsl::result::{JSLError, Kind};
use jsl::run::{apply, Action, Effect, Event, Machine};
use jsl::show::Piece;
use jsl::value::{Statement, Value};

fn num(x: f64) -> Value {
    Value::Number(x.to_bits())
}

fn text(s: &str) -> Value {
    Value::String(s.to_string())
}

fn compile(code: &str) -> Result<Vec<Statement>, JSLError> {
    let tokens = tokenize(code)?;
    let mut numbers = Vec::new();
    for t in &tokens {
        if t.category == TokenCategory::Number {
            numbers.push(t.content.parse::<f64>().unwrap().to_bits());
        } else {
            numbers.push(0);
        }
    }
    parse(tokens, numbers)
}

fn render(pieces: &Vec<Piece>) -> String {
    let mut out = String::new();
    for p in pieces {
        match p {
            Piece::Text(s) => out.push_str(s),
            Piece::Number(bits) => out.push_str(&format!("{}", f64::from_bits(*bits))),
        }
    }
    out
}

fn compute(op: Primitive, left: u64, right: u64) -> u64 {
    let (l, r) = (f64::from_bits(left), f64::from_bits(right));
    let x = match op {
        Primitive::Add => l + r,
        Primitive::Subtract => l - r,
        Primitive::Multiply => l * r,
        Primitive::Divide => l / r,
        other => panic!("not arithmetic: {other:?}"),
    };
    x.to_bits()
}

struct Ran {
    result: Result<(), JSLError>,
    output: String,
    machine: Machine,
    deepest: usize,
    steps: usize,
}

fn drive(mut machine: Machine) -> Ran {
    let mut output = String::new();
    let mut event = Event::Nothing;
    let mut deepest = machine.frames.len();
    let mut steps = 0;
    let result = loop {
        steps += 1;
        let action = machine.step(event);
        deepest = deepest.max(machine.frames.len());
        event = Event::Nothing;
        match action {
            Err(e) => break Err(e),
            Ok(Action::Finished) => break Ok(()),
            Ok(Action::Proceed) => {}
            Ok(Action::Print(pieces)) => output.push_str(&render(&pieces)),
            Ok(Action::Compute { op, left, right }) => {
                event = Event::Number(compute(op, left, right))
            }
            Ok(Action::Format(bits)) => event = Event::Text(format!("{}", f64::from_bits(bits))),
        }
    };
    Ran { result, output, machine, deepest, steps }
}

fn run(code: &str) -> Ran {
    drive(Machine::new(compile(code).unwrap(), Vec::new(), Env::new()))
}

fn shown(v: &Value) -> String {
    render(&v.debug())
}

fn stack_of(code: &str) -> Vec<String> {
    let ran = run(code);
    assert_eq!(ran.result, Ok(()), "{code}");
    ran.machine.stack.iter().map(shown).collect()
}

fn error_of(code: &str) -> JSLError {
    run(code).result.err().unwrap()
}

fn output_of(code: &str) -> String {
    let ran = run(code);
    assert_eq!(ran.result, Ok(()), "{code}");
    ran.output
}

#[test]
fn add_on_empty_stack_names_add() {
    let ran = run("+");
    assert_eq!(ran.result, Err(JSLError::NotEnoughValues(Primitive::Add)));
    assert_eq!(ran.result.err().unwrap().msg(), "not enough values for + add");
}

#[test]
fn duplicate_on_empty_stack_leaves_null() {
    let ran = run(":");
    assert_eq!(ran.result, Ok(()));
    assert_eq!(ran.machine.stack.len(), 1);
    assert!(matches!(ran.machine.stack[0], Value::Null));
}

#[test]
fn subtract_is_second_minus_top() {
    let ran = run("10 3 -");
    assert_eq!(ran.result, Ok(()));
    assert_eq!(ran.machine.stack.len(), 1);
    match ran.machine.stack[0] {
        Value::Number(bits) => assert_eq!(f64::from_bits(bits), 7.0),
        _ => panic!("not a number"),
    }
}

#[test]
fn divide_is_second_by_top() {
    let ran = run("10 3 ÷");
    match ran.machine.stack[0] {
        Value::Number(bits) => assert_eq!(f64::from_bits(bits), 10.0 / 3.0),
        _ => panic!("not a number"),
    }
    assert_eq!(stack_of("1 4 ÷"), vec!["0.25"]);
}

#[test]
fn add_and_multiply() {
    assert_eq!(stack_of("1.5 2 +"), vec!["3.5"]);
    assert_eq!(stack_of("6 7 ×"), vec!["42"]);
    assert_eq!(stack_of("1 0 ÷"), vec!["inf"]);
}

#[test]
fn arithmetic_asks_with_second_left_and_top_right() {
    let mut stack = vec![num(10.0), num(3.0)];
    match apply(Primitive::Subtract, &mut stack, Event::Nothing) {
        Effect::Ask(Action::Compute { op, left, right }) => {
            assert_eq!(op, Primitive::Subtract);
            assert_eq!(f64::from_bits(left), 10.0);
            assert_eq!(f64::from_bits(right), 3.0);
        }
        other => panic!("did not ask: {other:?}"),
    }
    assert_eq!(stack.len(), 2);
    match apply(Primitive::Subtract, &mut stack, Event::Text("7".to_string())) {
        Effect::Ask(Action::Compute { .. }) => {}
        other => panic!("did not ask again: {other:?}"),
    }
    assert_eq!(stack.len(), 2);
    match apply(Primitive::Subtract, &mut stack, Event::Number(7.0f64.to_bits())) {
        Effect::Done(Action::Proceed) => {}
        other => panic!("not done: {other:?}"),
    }
    assert_eq!(stack.iter().map(shown).collect::<Vec<_>>(), vec!["7"]);
}

#[test]
fn identical_functions_are_not_equal() {
    assert_eq!(stack_of("{ } { } ="), vec!["0"]);
    assert_eq!(stack_of("{ 1 + } { 1 + } ="), vec!["0"]);
    assert_eq!(stack_of("{ } → f f f ="), vec!["0"]);
    assert_eq!(stack_of("{ } ∅ ="), vec!["0"]);
}

#[test]
fn identical_lists_are_equal() {
    assert_eq!(stack_of("1 2 , 1 2 , ="), vec!["1"]);
    assert_eq!(stack_of("□ □ ="), vec!["1"]);
    assert_eq!(stack_of("1 2 , 1 3 , ="), vec!["0"]);
    assert_eq!(stack_of("1 2 , □ 1 ” ="), vec!["0"]);
    assert_eq!(stack_of("\"a\" ∅ , \"a\" ∅ , ="), vec!["1"]);
    assert_eq!(stack_of("□ { } ” □ { } ” ="), vec!["0"]);
}

#[test]
fn equality_of_scalars() {
    assert_eq!(stack_of("1 1 ="), vec!["1"]);
    assert_eq!(stack_of("1 2 ="), vec!["0"]);
    assert_eq!(stack_of("\"a\" \"a\" ="), vec!["1"]);
    assert_eq!(stack_of("\"a\" \"b\" ="), vec!["0"]);
    assert_eq!(stack_of("∅ ∅ ="), vec!["1"]);
    assert_eq!(stack_of("1 \"1\" ="), vec!["0"]);
    assert_eq!(stack_of("∅ 0 ="), vec!["0"]);
    assert_eq!(stack_of("0 0 ÷ : ="), vec!["0"]);
    assert_eq!(stack_of("0 0 0 - ="), vec!["1"]);
    assert_eq!(error_of("1 ="), JSLError::NotEnoughValues(Primitive::Equals));
    assert_eq!(error_of("1 =").msg(), "not enough values for = equals");
}

#[test]
fn same_number_is_numeric_equality() {
    let samples = [
        0.0,
        -0.0,
        1.0,
        -1.0,
        0.1,
        f64::MIN_POSITIVE,
        5e-324,
        f64::MAX,
        f64::INFINITY,
        f64::NEG_INFINITY,
        f64::NAN,
        -f64::NAN,
        f64::from_bits(0x7ff0_0000_0000_0001),
    ];
    for a in samples {
        for b in samples {
            assert_eq!(same_number(a.to_bits(), b.to_bits()), a == b, "{a} {b}");
        }
    }
    assert_eq!(f64::from_bits(ONE), 1.0);
    assert_eq!(f64::from_bits(ZERO), 0.0);
}

#[test]
fn square_of_a_bound_number_is_printed() {
    let ran = run("5 → x x x × ↗");
    assert_eq!(ran.result, Ok(()));
    assert_eq!(ran.output, "25");
    assert!(ran.machine.stack.is_empty());
}

#[test]
fn tail_calls_do_not_deepen_the_machine() {
    let code = "{ n 1 - → n loop { } , n 0 = ⤉ ! } → loop 100000 → n loop !";
    let ran = run(code);
    assert_eq!(ran.result, Ok(()));
    assert_eq!(ran.deepest, 1);
    assert!(ran.steps > 1_000_000);
    assert!(ran.machine.stack.is_empty());
    let n = ran.machine.frames[0].vars.get(&"n".to_string()).unwrap();
    assert_eq!(shown(n), "0");
}

#[test]
fn calls_before_the_end_enter_a_frame() {
    let ran = run("{ { 1 } ! 2 } ! 3");
    assert_eq!(ran.result, Ok(()));
    assert_eq!(ran.deepest, 3);
    assert_eq!(ran.machine.frames.len(), 1);
    assert_eq!(ran.machine.stack.iter().map(shown).collect::<Vec<_>>(), vec!["1", "2", "3"]);
    let ran = run("{ { 1 } ! } !");
    assert_eq!(ran.deepest, 1);
    assert_eq!(ran.machine.stack.iter().map(shown).collect::<Vec<_>>(), vec!["1"]);
}

#[test]
fn bindings_of_a_callee_do_not_reach_the_caller() {
    assert_eq!(output_of("1 → x { 2 → x x ↗ } ! x ↗"), "21");
    assert_eq!(output_of("1 → x { x ↗ } ! 0 ."), "1");
    let ran = run("1 → x { 2 → x } !");
    let x = ran.machine.frames[0].vars.get(&"x".to_string()).unwrap();
    assert_eq!(shown(x), "2");
    let ran = run("1 → x { 2 → x } ! ∅ .");
    let x = ran.machine.frames[0].vars.get(&"x".to_string()).unwrap();
    assert_eq!(shown(x), "1");
}

#[test]
fn callee_shares_the_stack() {
    assert_eq!(stack_of("1 2 { + } ! 0"), vec!["3", "0"]);
    assert_eq!(stack_of("{ 1 2 } ! +"), vec!["3"]);
}

#[test]
fn call_needs_a_function() {
    assert_eq!(error_of("1 !"), JSLError::InvalidFunction);
    assert_eq!(error_of("!"), JSLError::InvalidFunction);
    assert_eq!(error_of("∅ ! 1"), JSLError::InvalidFunction);
    assert_eq!(JSLError::InvalidFunction.msg(), "invalid function");
}

#[test]
fn binding_and_reading() {
    assert_eq!(stack_of("x"), vec!["∅"]);
    assert_eq!(stack_of("→ x x"), vec!["∅"]);
    assert_eq!(stack_of("1 → x 2 → x x x"), vec!["2", "2"]);
    assert_eq!(stack_of("1 2 → a → b a b"), vec!["2", "1"]);
}

#[test]
fn pop_duplicate_flip() {
    assert_eq!(stack_of("."), Vec::<String>::new());
    assert_eq!(stack_of("1 2 ."), vec!["1"]);
    assert_eq!(stack_of("1 :"), vec!["1", "1"]);
    assert_eq!(stack_of("1 2 ⭥"), vec!["2", "1"]);
    assert_eq!(stack_of("0 1 2 ⭥"), vec!["0", "2", "1"]);
    assert_eq!(stack_of("1 ⭥"), vec!["1"]);
    assert_eq!(stack_of("⭥"), Vec::<String>::new());
}

#[test]
fn pair_keeps_stack_order() {
    assert_eq!(stack_of("1 2 ,"), vec!["[ 1 2 ]"]);
    assert_eq!(stack_of("0 \"a\" ∅ ,"), vec!["0", "[ \"a\" ∅ ]"]);
    assert_eq!(error_of("1 ,"), JSLError::NotEnoughValues(Primitive::Pair));
    assert_eq!(error_of(","), JSLError::NotEnoughValues(Primitive::Pair));
    assert_eq!(error_of(",").msg(), "not enough values for , pair");
}

#[test]
fn join_of_strings_and_numbers() {
    assert_eq!(stack_of("\"a\" \"b\" ”"), vec!["\"ba\""]);
    assert_eq!(stack_of("1.5 \"b\" ”"), vec!["\"b1.5\""]);
    assert_eq!(stack_of("\"a\" 2 ”"), vec!["\"2a\""]);
    assert_eq!(stack_of("\"a\" 0 1 - ”"), vec!["\"-1a\""]);
}

#[test]
fn join_asks_for_the_text_of_the_number() {
    let mut stack = vec![num(2.5), text("a")];
    match apply(Primitive::Join, &mut stack, Event::Nothing) {
        Effect::Ask(Action::Format(bits)) => assert_eq!(f64::from_bits(bits), 2.5),
        other => panic!("did not ask: {other:?}"),
    }
    assert_eq!(stack.len(), 2);
    match apply(Primitive::Join, &mut stack, Event::Text("two and a half".to_string())) {
        Effect::Done(Action::Proceed) => {}
        other => panic!("not done: {other:?}"),
    }
    assert_eq!(stack.iter().map(shown).collect::<Vec<_>>(), vec!["\"atwo and a half\""]);
    let mut stack = vec![text("a"), num(2.5)];
    match apply(Primitive::Join, &mut stack, Event::Text("x".to_string())) {
        Effect::Done(Action::Proceed) => {}
        other => panic!("not done: {other:?}"),
    }
    assert_eq!(stack.iter().map(shown).collect::<Vec<_>>(), vec!["\"xa\""]);
}

#[test]
fn join_of_lists() {
    assert_eq!(stack_of("1 2 , 3 4 , ”"), vec!["[ 3 4 1 2 ]"]);
    assert_eq!(stack_of("9 1 2 , ”"), vec!["[ 1 2 9 ]"]);
    assert_eq!(stack_of("1 2 , 9 ”"), vec!["[ 9 1 2 ]"]);
    assert_eq!(stack_of("□ 1 ” 2 ”"), vec!["[ 2 1 ]"]);
    assert_eq!(stack_of("∅ □ ”"), vec!["[ ∅ ]"]);
    assert_eq!(stack_of("□ □ ”"), vec!["[ ]"]);
    assert_eq!(stack_of("□ \"a\" ”"), vec!["[ \"a\" ]"]);
    assert_eq!(stack_of("{ } □ ”"), vec!["[ {…} ]"]);
}

#[test]
fn join_of_functions_runs_the_lower_one_first() {
    assert_eq!(stack_of("{ 1 } { 2 } ” ! 0"), vec!["1", "2", "0"]);
    assert_eq!(stack_of("10 { 2 × } { 1 + } ” ! 0 ."), vec!["21"]);
}

#[test]
fn join_with_an_empty_function_changes_nothing() {
    assert_eq!(stack_of("3 { : × } { } ” ! 0 ."), stack_of("3 { : × } ! 0 ."));
    assert_eq!(stack_of("3 { } { : × } ” ! 0 ."), stack_of("3 { : × } ! 0 ."));
    let ast = compile("{ 1 x + } { } ” { } { 1 x + } ” { 1 x + }").unwrap();
    let ran = drive(Machine::new(ast, Vec::new(), Env::new()));
    let bodies: Vec<String> = ran.machine.stack.iter().map(|v| format!("{v:?}")).collect();
    assert_eq!(bodies[0], bodies[2]);
    assert_eq!(bodies[1], bodies[2]);
}

#[test]
fn join_mismatch_names_both_kinds() {
    let e = error_of("1 2 ”");
    assert_eq!(e, JSLError::Mismatch { op: Primitive::Join, top: Kind::Number, second: Kind::Number });
    assert_eq!(e.msg(), "cannot join number and number");
    assert_eq!(error_of("{ } \"a\" ”").msg(), "cannot join string and function");
    assert_eq!(error_of("∅ 1 ”").msg(), "cannot join number and null");
    assert_eq!(error_of("\"a\" ”"), JSLError::NotEnoughValues(Primitive::Join));
    assert_eq!(error_of("”").msg(), "not enough values for ” join");
}

#[test]
fn index_by_position() {
    assert_eq!(stack_of("7 8 , 9 ” → l l 0 ⤉ l 1 ⤉ l 2 ⤉"), vec!["9", "7", "8"]);
    assert_eq!(stack_of("7 8 , 2 ⤉"), vec!["∅"]);
    assert_eq!(stack_of("7 8 , 1000000 ⤉"), vec!["∅"]);
    assert_eq!(stack_of("□ 0 ⤉"), vec!["∅"]);
    assert_eq!(stack_of("7 8 , 0 0 - ⤉"), vec!["7"]);
}

#[test]
fn index_from_the_end() {
    assert_eq!(stack_of("7 8 , 0 1 - ⤉"), vec!["8"]);
    assert_eq!(stack_of("7 8 , 0 2 - ⤉"), vec!["7"]);
    assert_eq!(stack_of("7 8 , 0 3 - ⤉"), vec!["∅"]);
    assert_eq!(stack_of("□ 0 1 - ⤉"), vec!["∅"]);
    assert_eq!(stack_of("\"héllo\" 0 1 - ⤉"), vec!["\"o\""]);
    assert_eq!(stack_of("\"héllo\" 0 5 - ⤉"), vec!["\"h\""]);
    assert_eq!(stack_of("\"héllo\" 0 6 - ⤉"), vec!["∅"]);
}

#[test]
fn index_of_strings_counts_characters() {
    assert_eq!(stack_of("\"héllo\" 1 ⤉"), vec!["\"é\""]);
    assert_eq!(stack_of("\"héllo\" 4 ⤉"), vec!["\"o\""]);
    assert_eq!(stack_of("\"héllo\" 5 ⤉"), vec!["∅"]);
    assert_eq!(stack_of("\"\" 0 ⤉"), vec!["∅"]);
}

#[test]
fn index_must_be_whole() {
    assert_eq!(error_of("7 8 , 0.5 ⤉"), JSLError::ExpectedIntegerIndex);
    assert_eq!(error_of("\"abc\" 1.25 ⤉"), JSLError::ExpectedIntegerIndex);
    assert_eq!(error_of("7 8 , 1 0 ÷ ⤉"), JSLError::ExpectedIntegerIndex);
    assert_eq!(error_of("7 8 , 0 0 ÷ ⤉"), JSLError::ExpectedIntegerIndex);
    assert_eq!(JSLError::ExpectedIntegerIndex.msg(), "expected integer index");
}

#[test]
fn index_mismatch_names_target_then_index() {
    let e = error_of("5 1 ⤉");
    assert_eq!(e, JSLError::Mismatch { op: Primitive::Index, top: Kind::Number, second: Kind::Number });
    assert_eq!(e.msg(), "cannot index number with number");
    assert_eq!(error_of("□ \"a\" ⤉").msg(), "cannot index list with string");
    assert_eq!(error_of("∅ 0.5 ⤉").msg(), "cannot index null with number");
    assert_eq!(error_of("1 ⤉").msg(), "not enough values for ⤉ index");
}

#[test]
fn position_agrees_with_the_number() {
    let whole = [0.0, 1.0, 2.0, 3.0, 4.0, 5.0, 1023.0, 4096.0, 9007199254740992.0];
    for len in [0usize, 1, 3, 5, 4097] {
        for x in whole {
            let want = if x < len as f64 { Position::At(x as usize) } else { Position::Outside };
            assert_eq!(position(x.to_bits(), len), want, "{x} {len}");
            let want = if x == 0.0 {
                if len > 0 { Position::At(0) } else { Position::Outside }
            } else if x <= len as f64 {
                Position::At(len - x as usize)
            } else {
                Position::Outside
            };
            assert_eq!(position((-x).to_bits(), len), want, "-{x} {len}");
        }
        for x in [0.5, 1.5, 0.1, 5e-324, f64::MIN_POSITIVE, 4095.5, 4503599627370495.5] {
            assert_eq!(position(x.to_bits(), len), Position::Fraction, "{x}");
            assert_eq!(position((-x).to_bits(), len), Position::Fraction, "-{x}");
        }
        for x in [f64::INFINITY, f64::NEG_INFINITY, f64::NAN] {
            assert_eq!(position(x.to_bits(), len), Position::Fraction, "{x}");
        }
        for x in [1e300, f64::MAX, 18446744073709551616.0, 9223372036854775808.0] {
            assert_eq!(position(x.to_bits(), len), Position::Outside, "{x}");
            assert_eq!(position((-x).to_bits(), len), Position::Outside, "-{x}");
        }
    }
    assert_eq!(position(3.0f64.to_bits(), usize::MAX), Position::At(3));
    assert_eq!(position((-3.0f64).to_bits(), usize::MAX), Position::At(usize::MAX - 3));
    for x in 0..2000u32 {
        let f = x as f64 / 8.0;
        let want = if f.fract() != 0.0 {
            Position::Fraction
        } else if f < 100.0 {
            Position::At(f as usize)
        } else {
            Position::Outside
        };
        assert_eq!(position(f.to_bits(), 100), want, "{f}");
    }
}

#[test]
fn arithmetic_mismatch_messages() {
    assert_eq!(error_of("1 \"a\" +").msg(), "cannot add string and number");
    assert_eq!(
        error_of("\"a\" \"b\" +").msg(),
        "cannot add string and string. perhaps you meant to use ” join?"
    );
    assert_eq!(
        error_of("□ □ +").msg(),
        "cannot add list and list. perhaps you meant to use ” join?"
    );
    assert_eq!(error_of("∅ ∅ +").msg(), "cannot add null and null");
    assert_eq!(error_of("□ \"b\" +").msg(), "cannot add string and list");
    assert_eq!(error_of("1 \"a\" -").msg(), "cannot subtract string from number");
    assert_eq!(error_of("{ } 1 ×").msg(), "cannot multiply number and function");
    assert_eq!(error_of("1 \"a\" ÷").msg(), "cannot divide number by string");
    assert_eq!(
        error_of("1 \"a\" ÷"),
        JSLError::Mismatch { op: Primitive::Divide, top: Kind::String, second: Kind::Number }
    );
    assert_eq!(
        JSLError::Mismatch { op: Primitive::Equals, top: Kind::Number, second: Kind::Null }.msg(),
        "cannot apply = equals to number and null"
    );
    assert_eq!(JSLError::NotEnoughValues(Primitive::Flip).msg(), "not enough values for ⭥ flip");
    assert_eq!(error_of("1 -").msg(), "not enough values for - subtract");
    assert_eq!(error_of("×").msg(), "not enough values for × multiply");
    assert_eq!(error_of("1 ÷").msg(), "not enough values for ÷ divide");
}

#[test]
fn failed_operation_has_taken_its_operands() {
    let ran = run("5 1 \"a\" +");
    assert!(ran.result.is_err());
    assert_eq!(ran.machine.stack.iter().map(shown).collect::<Vec<_>>(), vec!["5"]);
    let ran = run("5 +");
    assert!(ran.result.is_err());
    assert!(ran.machine.stack.is_empty());
}

#[test]
fn print_writes_the_display_form() {
    assert_eq!(output_of("\"a\\nb\" ↗"), "a\nb");
    assert_eq!(output_of("1.5 ↗"), "1.5");
    assert_eq!(output_of("∅ ↗"), "∅");
    assert_eq!(output_of("↗"), "∅");
    assert_eq!(output_of("{ 1 } ↗"), "{…}");
    assert_eq!(output_of("□ ↗"), "[ ]");
    assert_eq!(output_of("1 \"a\\\"b\" , ↗"), "[ 1 \"a\\\"b\" ]");
    assert_eq!(output_of("1 2 , 3 , ↗"), "[ [ 1 2 ] 3 ]");
    assert_eq!(output_of("1 ↗ 2 ↗ \" \" ↗ 3 ↗"), "12 3");
}

#[test]
fn debug_form_escapes_strings() {
    assert_eq!(shown(&text("a\r\n\t\"\\b")), "\"a\\r\\n\\t\\\"\\\\b\"");
    assert_eq!(shown(&text("\u{1}\u{1f}\u{7f}\u{9f}")), "\"\\x01\\x1f\\x7f\\x9f\"");
    assert_eq!(shown(&text("\u{a0}é")), "\"\u{a0}é\"");
    assert_eq!(shown(&text("\u{0}")), format!("{:?}", "\u{0}").replace("\\0", "\\x00"));
    assert_eq!(render(&text("a\"b").display()), "a\"b");
    assert_eq!(render(&Value::List(vec![text("a\"b")]).display()), "[ \"a\\\"b\" ]");
}

#[test]
fn statements_have_their_text() {
    let ast = compile("5 → x x × \"a\" { } □ 1 ”").unwrap();
    let listing: Vec<String> = ast.iter().map(|s| render(&s.debug())).collect();
    assert_eq!(listing, vec!["5", "→x", "x", "Multiply", "a", "{…}", "[ ]", "1", "Join"]);
}

#[test]
fn kinds_have_their_names() {
    assert_eq!(num(1.0).type_str(), "number");
    assert_eq!(text("").type_str(), "string");
    assert_eq!(Value::List(vec![]).type_str(), "list");
    assert_eq!(Value::Function(vec![]).type_str(), "function");
    assert_eq!(Value::Null.type_str(), "null");
    assert_eq!(Value::Null.kind(), Kind::Null);
}

#[test]
fn values_compare_as_the_language_does() {
    assert!(num(1.0) == num(1.0));
    assert!(num(0.0) == num(-0.0));
    assert!(num(f64::NAN) != num(f64::NAN));
    assert!(text("a") == text("a"));
    assert!(Value::Null == Value::Null);
    assert!(Value::Function(vec![]) != Value::Function(vec![]));
    assert!(Value::List(vec![num(1.0), text("x")]) == Value::List(vec![num(1.0), text("x")]));
    assert!(Value::List(vec![num(1.0)]) != Value::List(vec![num(1.0), num(1.0)]));
    assert!(Value::List(vec![Value::Function(vec![])]) != Value::List(vec![Value::Function(vec![])]));
    assert!(num(1.0).equals(&num(1.0)));
    assert!(!num(1.0).equals(&text("1")));
}

#[test]
fn copies_are_whole() {
    let v = Value::List(vec![
        num(1.0),
        text("a"),
        Value::Null,
        Value::Function(vec![
            Statement::Binding("x".to_string()),
            Statement::Identifier("x".to_string()),
            Statement::Literal(Value::List(vec![text("deep")])),
            Statement::Primitive(Primitive::Call),
        ]),
    ]);
    assert_eq!(format!("{:?}", v.copy()), format!("{v:?}"));
    assert_eq!(format!("{:?}", v.clone()), format!("{v:?}"));
    let s = Statement::Literal(v);
    assert_eq!(format!("{:?}", s.clone()), format!("{s:?}"));
    assert_eq!(format!("{:?}", s.copy()), format!("{s:?}"));
    let b = Statement::Binding("x".to_string());
    assert_eq!(format!("{:?}", b.clone()), "Binding(\"x\")");
}

#[test]
fn environment_keeps_the_last_value() {
    let mut env = Env::new();
    assert!(env.get(&"x".to_string()).is_none());
    env.insert("x".to_string(), num(1.0));
    env.insert("y".to_string(), num(2.0));
    env.insert("x".to_string(), num(3.0));
    assert_eq!(shown(env.get(&"x".to_string()).unwrap()), "3");
    assert_eq!(shown(env.get(&"y".to_string()).unwrap()), "2");
    assert!(env.get(&"z".to_string()).is_none());
    let mut copy = env.copy();
    copy.insert("x".to_string(), num(4.0));
    copy.insert("z".to_string(), Value::Null);
    assert_eq!(shown(env.get(&"x".to_string()).unwrap()), "3");
    assert!(env.get(&"z".to_string()).is_none());
    assert_eq!(shown(copy.get(&"x".to_string()).unwrap()), "4");
    assert_eq!(shown(copy.get(&"y".to_string()).unwrap()), "2");
}

#[test]
fn machine_starts_with_the_given_stack_and_variables() {
    let mut vars = Env::new();
    vars.insert("x".to_string(), num(4.0));
    let ran = drive(Machine::new(compile("x +").unwrap(), vec![num(1.0), num(2.0)], vars));
    assert_eq!(ran.result, Ok(()));
    assert_eq!(ran.machine.stack.iter().map(shown).collect::<Vec<_>>(), vec!["1", "6"]);
}

#[test]
fn finished_machine_stays_finished() {
    let mut machine = Machine::new(compile("1").unwrap(), Vec::new(), Env::new());
    assert!(matches!(machine.step(Event::Nothing), Ok(Action::Proceed)));
    assert!(matches!(machine.step(Event::Nothing), Ok(Action::Finished)));
    assert!(matches!(machine.step(Event::Number(5)), Ok(Action::Finished)));
    assert_eq!(machine.stack.len(), 1);
    assert_eq!(machine.frames.len(), 1);
    let mut empty = Machine { stack: Vec::new(), frames: Vec::new() };
    assert!(matches!(empty.step(Event::Nothing), Ok(Action::Finished)));
}

#[test]
fn answer_that_was_not_asked_for_is_ignored() {
    let mut machine = Machine::new(compile("1 2").unwrap(), Vec::new(), Env::new());
    assert!(matches!(machine.step(Event::Number(9)), Ok(Action::Proceed)));
    assert!(matches!(machine.step(Event::Text("9".to_string())), Ok(Action::Proceed)));
    assert_eq!(machine.stack.iter().map(shown).collect::<Vec<_>>(), vec!["1", "2"]);
}

#[test]
fn literal_in_a_loop_is_pushed_afresh() {
    assert_eq!(stack_of("{ □ 1 ” } → f f ! f ! 0 ."), vec!["[ 1 ]", "[ 1 ]"]);
}
