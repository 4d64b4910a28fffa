use wae::{parse, Binary, Binding, Expr, Id, Number, Operator, With};

fn num(text: &str) -> Expr {
    Expr::Number(Box::new(Number { val: text.to_string() }))
}

fn id(name: &str) -> Expr {
    Expr::Id(Box::new(Id { val: name.to_string() }))
}

fn bin(op: Operator, left: Expr, right: Expr) -> Expr {
    Expr::Binary(Box::new(Binary { op, left, right }))
}

fn with(name: &str, bound: Expr, body: Expr) -> Expr {
    Expr::With(Box::new(With {
        binding: Binding { identifier: Box::new(Id { val: name.to_string() }), replace: bound },
        input: body,
    }))
}

fn eval(expr: &Expr) -> Result<f32, String> {
    match expr {
        Expr::Number(n) => n.val.parse::<f32>().map_err(|_| format!("no number: {}", n.val)),
        Expr::Binary(b) => {
            let left = eval(&b.left)?;
            let right = eval(&b.right)?;
            Ok(match b.op {
                Operator::Add => left + right,
                Operator::Sub => left - right,
                Operator::Mul => left * right,
                Operator::Div => left / right,
            })
        }
        Expr::With(w) => eval(&w.input),
        Expr::Id(i) => Err(format!("failed to replace identifier: {}", i.val)),
    }
}

fn run(text: &str) -> Result<f32, String> {
    let tree = parse(text.to_string())?;
    eval(&tree.replace())
}

#[test]
fn number_evaluates_to_itself() {
    assert_eq!(parse("253354".to_string()), Ok(num("253354")));
    assert_eq!(run("253354"), Ok(253354.0));
}

#[test]
fn addition_of_two_numbers() {
    assert_eq!(parse("(+ 1 2)".to_string()), Ok(bin(Operator::Add, num("1"), num("2"))));
    assert_eq!(run("(+ 1 2)"), Ok(3.0));
}

#[test]
fn binding_used_in_nested_operations() {
    let text = "(with ([x (- 23 7)]) (+ (/ x 2) (* 3 4)))";
    let tree = parse(text.to_string()).unwrap();
    assert_eq!(
        tree,
        with(
            "x",
            bin(Operator::Sub, num("23"), num("7")),
            bin(
                Operator::Add,
                bin(Operator::Div, id("x"), num("2")),
                bin(Operator::Mul, num("3"), num("4")),
            ),
        )
    );
    let x = bin(Operator::Sub, num("23"), num("7"));
    assert_eq!(
        tree.replace(),
        bin(
            Operator::Add,
            bin(Operator::Div, x, num("2")),
            bin(Operator::Mul, num("3"), num("4")),
        )
    );
    assert_eq!(run(text), Ok(20.0));
}

#[test]
fn inner_binding_sees_outer_binding() {
    let text = "(with ([x 1]) (with ([y (* x 2)]) (+ x y)))";
    let tree = parse(text.to_string()).unwrap();
    assert_eq!(
        tree.replace(),
        bin(Operator::Add, num("1"), bin(Operator::Mul, num("1"), num("2")))
    );
    assert_eq!(run(text), Ok(3.0));
}

#[test]
fn inner_binding_shadows_outer_binding() {
    let text = "(with ([x 1]) (+ (with ([x (* x 2)]) x) x))";
    let tree = parse(text.to_string()).unwrap();
    assert_eq!(
        tree,
        with(
            "x",
            num("1"),
            bin(
                Operator::Add,
                with("x", bin(Operator::Mul, id("x"), num("2")), id("x")),
                id("x"),
            ),
        )
    );
    assert_eq!(
        tree.replace(),
        bin(Operator::Add, bin(Operator::Mul, num("1"), num("2")), num("1"))
    );
    assert_eq!(run(text), Ok(3.0));
}

#[test]
fn spaces_around_the_text_are_ignored() {
    let padded = parse("  (+ 1 2)             ".to_string());
    let plain = parse("(+ 1 2)".to_string());
    assert_eq!(padded, plain);
    assert_eq!(run("  (+ 1 2)             "), Ok(3.0));
    assert_eq!(run("  (+ 1 2)  "), run("(+ 1 2)"));
}

#[test]
fn spaces_between_tokens_are_ignored() {
    assert_eq!(
        parse("    (   +  1     2    ) ".to_string()),
        Ok(bin(Operator::Add, num("1"), num("2")))
    );
    assert_eq!(run("    (   +  1     2    ) "), Ok(3.0));
}

#[test]
fn spaces_inside_a_binding_form_are_ignored() {
    let spaced = " (     with    (  [  x    (       -     23   7  ) ])    \
    ( +   (  /    x 2)    ( * 3     4) ))";
    assert_eq!(
        parse(spaced.to_string()),
        parse("(with ([x (- 23 7)]) (+ (/ x 2) (* 3 4)))".to_string())
    );
    assert_eq!(run(spaced), Ok(20.0));
}

#[test]
fn tabs_and_line_breaks_separate_tokens() {
    assert_eq!(
        parse("(+\t1\n2)".to_string()),
        Ok(bin(Operator::Add, num("1"), num("2")))
    );
    assert_eq!(
        parse("\u{3000}(+ 1 2)\u{a0}".to_string()),
        Ok(bin(Operator::Add, num("1"), num("2")))
    );
}

#[test]
fn lone_identifier_parses_and_stays_unbound() {
    let tree = parse("gvtct".to_string()).unwrap();
    assert_eq!(tree, id("gvtct"));
    let resolved = tree.replace();
    assert_eq!(resolved, id("gvtct"));
    assert_eq!(resolved.unbound(), Some("gvtct".to_string()));
    assert_eq!(run("gvtct"), Err("failed to replace identifier: gvtct".to_string()));
}

#[test]
fn unbound_identifier_in_operation_fails_at_evaluation() {
    let tree = parse("(* 1 jksef)".to_string()).unwrap();
    assert_eq!(tree, bin(Operator::Mul, num("1"), id("jksef")));
    let resolved = tree.replace();
    assert_eq!(resolved.unbound(), Some("jksef".to_string()));
    assert_eq!(run("(* 1 jksef)"), Err("failed to replace identifier: jksef".to_string()));
}

#[test]
fn digit_leading_token_is_no_identifier() {
    assert_eq!(parse("1vtct".to_string()), Err("expected a Number".to_string()));
    assert!(run("1vtct").is_err());
}

#[test]
fn three_operands_are_rejected() {
    assert_eq!(
        parse("(+ 1 2 3)".to_string()),
        Err("expected an operator type and two inputs for binary expression".to_string())
    );
}

#[test]
fn empty_parentheses_are_rejected() {
    assert_eq!(
        parse("()".to_string()),
        Err("expected an expression within the parentheses".to_string())
    );
}

#[test]
fn missing_closing_parenthesis_is_rejected() {
    assert_eq!(
        parse("(+ 1 2".to_string()),
        Err("expected opening and closing parentheses".to_string())
    );
}

#[test]
fn division_by_zero_is_infinite() {
    assert_eq!(run("(/ 1 0)"), Ok(f32::INFINITY));
    assert!(run("(/ 0 0)").unwrap().is_nan());
}

#[test]
fn unused_binding_of_unbound_name_disappears() {
    assert_eq!(run("(with ([x y]) 1)"), Ok(1.0));
}

#[test]
fn nested_operations_are_read_to_their_depth() {
    let depth = 200;
    let mut text = String::new();
    for _ in 0..depth {
        text.push_str("(+ 1 ");
    }
    text.push('1');
    for _ in 0..depth {
        text.push(')');
    }
    assert_eq!(run(&text), Ok(201.0));
}

#[test]
fn chain_of_bindings_is_resolved() {
    // (with ([a 1]) (with ([b (+ a 1)]) (with ([c (+ b 1)]) ... )))
    let names = ["a", "b", "c", "d", "e", "f", "g", "h"];
    let mut text = String::new();
    text.push_str("(with ([a 1]) ");
    for i in 1..names.len() {
        text.push_str(&format!("(with ([{} (+ {} 1)]) ", names[i], names[i - 1]));
    }
    text.push_str("(* h 2)");
    for _ in 0..names.len() {
        text.push(')');
    }
    assert_eq!(run(&text), Ok(16.0));
    assert_eq!(parse(text).unwrap().replace().unbound(), None);
}
