use wae::{outline_lines, parse, Label, Line, Operator};

fn drawn(text: &str) -> Vec<String> {
    let tree = parse(text.to_string()).unwrap();
    outline_lines(&tree)
        .iter()
        .map(|line| format!("{}{}", line.prefix, line.label.text()))
        .collect()
}

#[test]
fn leaf_is_one_line() {
    assert_eq!(drawn("253354"), vec!["Number: 253354"]);
    assert_eq!(drawn(" x "), vec!["Id: x"]);
    assert_eq!(drawn("1.50"), vec!["Number: 1.50"]);
}

#[test]
fn operands_hang_below_their_operation() {
    assert_eq!(drawn("(+ 1 2)"), vec!["Add", "├── Number: 1", "└── Number: 2"]);
    assert_eq!(
        drawn("(- (* 1 2) (/ x 4))"),
        vec![
            "Subtract",
            "├── Multiply",
            "│   ├── Number: 1",
            "│   └── Number: 2",
            "└── Divide",
            "    ├── Id: x",
            "    └── Number: 4",
        ]
    );
}

#[test]
fn binding_form_shows_binding_and_body() {
    assert_eq!(
        drawn("(with ([x (- 23 7)]) (+ (/ x 2) (* 3 4)))"),
        vec![
            "With",
            "├── Binding",
            "│   ├── Id: x",
            "│   └── Subtract",
            "│       ├── Number: 23",
            "│       └── Number: 7",
            "└── Add",
            "    ├── Divide",
            "    │   ├── Id: x",
            "    │   └── Number: 2",
            "    └── Multiply",
            "        ├── Number: 3",
            "        └── Number: 4",
        ]
    );
}

#[test]
fn nested_binding_forms_are_drawn_in_depth() {
    assert_eq!(
        drawn("(with ([x (with ([y 1]) y)]) (with ([z x]) z))"),
        vec![
            "With",
            "├── Binding",
            "│   ├── Id: x",
            "│   └── With",
            "│       ├── Binding",
            "│       │   ├── Id: y",
            "│       │   └── Number: 1",
            "│       └── Id: y",
            "└── With",
            "    ├── Binding",
            "    │   ├── Id: z",
            "    │   └── Id: x",
            "    └── Id: z",
        ]
    );
}

#[test]
fn lines_carry_prefix_and_label_apart() {
    let tree = parse("(* 2 y)".to_string()).unwrap();
    assert_eq!(
        outline_lines(&tree),
        vec![
            Line { prefix: "".to_string(), label: Label::Operation(Operator::Mul) },
            Line { prefix: "├── ".to_string(), label: Label::Number("2".to_string()) },
            Line { prefix: "└── ".to_string(), label: Label::Id("y".to_string()) },
        ]
    );
}

#[test]
fn operators_have_names() {
    assert_eq!(Operator::Add.name(), "Add");
    assert_eq!(Operator::Sub.name(), "Subtract");
    assert_eq!(Operator::Mul.name(), "Multiply");
    assert_eq!(Operator::Div.name(), "Divide");
    assert_eq!(Label::With.text(), "With");
    assert_eq!(Label::Binding.text(), "Binding");
}
