use forth::ForthError;
use forth::ForthInterpreter;
use forth::Literal;
use forth::Pointer;
use forth::WordElement;
use forth::literal::display_literal;

fn stack_of(forth: &ForthInterpreter) -> Vec<Literal> {
    let dump = forth.get_stack_dump();
    let mut out = Vec::new();
    let mut i = 0;
    while i < dump.length() {
        out.push(dump.get(i).clone());
        i += 1;
    }
    out
}

#[test]
fn test_interpreter() {
    let mut forth: ForthInterpreter = ForthInterpreter::new();
    forth.push(Literal::Integer(5));
    forth.push(Literal::Integer(5));
}

#[test]
fn test_parsing() {
    let mut forth: ForthInterpreter = ForthInterpreter::new();
    let _ = &mut forth;
}

#[test]
fn test_variable() {
    let mut interpreter = ForthInterpreter::new();

    interpreter.execute_line("variable user_var").unwrap();
    interpreter.execute_line("123 user_var !").unwrap();

    let value = interpreter.get_last_literal();
    if let Ok(Literal::Integer(i)) = value {
        println!("{:?}", i);
    }
}

#[test]
fn test_addition() {
    let mut forth = ForthInterpreter::new();
    forth.execute_line("3 4 +").unwrap();
    assert_eq!(stack_of(&forth), vec![Literal::Integer(7)]);
}

#[test]
fn test_truncating_division() {
    let mut forth = ForthInterpreter::new();
    forth.execute_line("10 3 /").unwrap();
    assert_eq!(stack_of(&forth), vec![Literal::Integer(3)]);
    let mut forth2 = ForthInterpreter::new();
    forth2.execute_line("-7 2 /").unwrap();
    assert_eq!(stack_of(&forth2), vec![Literal::Integer(-3)]);
}

#[test]
fn test_division_by_zero_fails() {
    let mut forth = ForthInterpreter::new();
    assert_eq!(forth.execute_line("5 0 /"), Err(ForthError::InvalidOperands));
}

#[test]
fn test_division_overflow_fails() {
    let mut forth = ForthInterpreter::new();
    assert_eq!(
        forth.execute_line("-9223372036854775808 -1 /"),
        Err(ForthError::InvalidOperands)
    );
}

#[test]
fn test_arithmetic_on_text_fails() {
    let mut forth = ForthInterpreter::new();
    assert_eq!(
        forth.execute_line("\"a\" \"b\" +"),
        Err(ForthError::InvalidOperands)
    );
}

#[test]
fn test_swap() {
    let mut forth = ForthInterpreter::new();
    forth.execute_line("1 2 3 swap").unwrap();
    assert_eq!(
        stack_of(&forth),
        vec![Literal::Integer(1), Literal::Integer(3), Literal::Integer(2)]
    );
}

#[test]
fn test_over() {
    let mut forth = ForthInterpreter::new();
    forth.execute_line("1 2 3 over").unwrap();
    assert_eq!(
        stack_of(&forth),
        vec![
            Literal::Integer(1),
            Literal::Integer(2),
            Literal::Integer(3),
            Literal::Integer(2)
        ]
    );
}

#[test]
fn test_rot() {
    let mut forth = ForthInterpreter::new();
    forth.execute_line("1 2 3 rot").unwrap();
    assert_eq!(
        stack_of(&forth),
        vec![Literal::Integer(2), Literal::Integer(3), Literal::Integer(1)]
    );
}

#[test]
fn test_dup_and_drop() {
    let mut forth = ForthInterpreter::new();
    forth.execute_line("9 dup").unwrap();
    assert_eq!(stack_of(&forth), vec![Literal::Integer(9), Literal::Integer(9)]);
    forth.execute_line("drop drop").unwrap();
    assert_eq!(stack_of(&forth), vec![]);
    assert_eq!(forth.execute_line("drop"), Err(ForthError::StackUnderflow));
}

#[test]
fn test_comparisons_and_truth_encoding() {
    let mut forth = ForthInterpreter::new();
    forth.execute_line("3 3 =").unwrap();
    assert_eq!(stack_of(&forth), vec![Literal::Integer(-1)]);
    let mut forth2 = ForthInterpreter::new();
    forth2.execute_line("3 4 =").unwrap();
    assert_eq!(stack_of(&forth2), vec![Literal::Integer(0)]);
    let mut forth3 = ForthInterpreter::new();
    forth3.execute_line("3 4 <").unwrap();
    assert_eq!(stack_of(&forth3), vec![Literal::Integer(-1)]);
    let mut forth4 = ForthInterpreter::new();
    forth4.execute_line("0 invert").unwrap();
    assert_eq!(stack_of(&forth4), vec![Literal::Integer(-1)]);
    let mut forth5 = ForthInterpreter::new();
    forth5.execute_line("5 invert").unwrap();
    assert_eq!(stack_of(&forth5), vec![Literal::Integer(0)]);
}

#[test]
fn test_cross_variant_comparison_fails() {
    let mut forth = ForthInterpreter::new();
    assert_eq!(
        forth.execute_line("3 \"three\" <"),
        Err(ForthError::InvalidOperands)
    );
    let mut forth2 = ForthInterpreter::new();
    forth2.execute_line("3 \"three\" =").unwrap();
    assert_eq!(stack_of(&forth2), vec![Literal::Integer(0)]);
}

#[test]
fn test_and_or() {
    let mut forth = ForthInterpreter::new();
    forth.execute_line("1 2 and").unwrap();
    assert_eq!(stack_of(&forth), vec![Literal::Integer(-1)]);
    let mut forth2 = ForthInterpreter::new();
    forth2.execute_line("1 0 and").unwrap();
    assert_eq!(stack_of(&forth2), vec![Literal::Integer(0)]);
    let mut forth3 = ForthInterpreter::new();
    forth3.execute_line("0 7 or").unwrap();
    assert_eq!(stack_of(&forth3), vec![Literal::Integer(-1)]);
    let mut forth4 = ForthInterpreter::new();
    forth4.execute_line("0 0 or").unwrap();
    assert_eq!(stack_of(&forth4), vec![Literal::Integer(0)]);
}

#[test]
fn test_variable_round_trip() {
    let mut forth = ForthInterpreter::new();
    forth.execute_line("variable spot").unwrap();
    forth.execute_line("123 spot !").unwrap();
    forth.execute_line("spot @").unwrap();
    assert_eq!(stack_of(&forth), vec![Literal::Integer(123)]);
}

#[test]
fn test_fetch_unset_variable_is_zero() {
    let mut forth = ForthInterpreter::new();
    forth.execute_line("variable fresh").unwrap();
    forth.execute_line("fresh @").unwrap();
    assert_eq!(stack_of(&forth), vec![Literal::Integer(0)]);
}

#[test]
fn test_variable_address_is_stable() {
    let mut forth = ForthInterpreter::new();
    forth.execute_line("variable a1 variable a2").unwrap();
    forth.execute_line("a1 a2").unwrap();
    assert_eq!(
        stack_of(&forth),
        vec![
            Literal::Pointer(Pointer::new(0, 0)),
            Literal::Pointer(Pointer::new(1, 0))
        ]
    );
}

#[test]
fn test_store_through_dangling_pointer_fails() {
    let mut forth = ForthInterpreter::new();
    forth.push(Literal::Integer(1));
    forth.push(Literal::Pointer(Pointer::new(99, 0)));
    assert_eq!(forth.execute_line("!"), Err(ForthError::InvalidOperands));
}

#[test]
fn test_user_word() {
    let mut forth = ForthInterpreter::new();
    forth.define_word(
        "square".to_string(),
        vec![
            WordElement::Word("dup".to_string()),
            WordElement::Word("*".to_string()),
        ],
    );
    forth.execute_line("6 square").unwrap();
    assert_eq!(stack_of(&forth), vec![Literal::Integer(36)]);
}

#[test]
fn test_natives_shadow_user_words() {
    let mut forth = ForthInterpreter::new();
    forth.define_word(
        "dup".to_string(),
        vec![WordElement::Literal(Literal::Integer(99))],
    );
    forth.execute_line("5 dup").unwrap();
    assert_eq!(stack_of(&forth), vec![Literal::Integer(5), Literal::Integer(5)]);
}

#[test]
fn test_self_recursive_word_hits_depth_guard() {
    let mut forth = ForthInterpreter::new();
    forth.define_word(
        "forever".to_string(),
        vec![WordElement::Word("forever".to_string())],
    );
    assert_eq!(forth.execute_line("forever"), Err(ForthError::RecursionLimit));
}

#[test]
fn test_undefined_word_leaves_stack_unchanged() {
    let mut forth = ForthInterpreter::new();
    forth.push(Literal::Integer(7));
    assert_eq!(forth.execute_line("1 mystery +"), Err(ForthError::UndefinedWord));
    assert_eq!(stack_of(&forth), vec![Literal::Integer(7)]);
}

#[test]
fn test_unterminated_text_is_syntax_error() {
    let mut forth = ForthInterpreter::new();
    assert_eq!(forth.execute_line("\"oops"), Err(ForthError::SyntaxError));
}

#[test]
fn test_numeral_out_of_range_is_syntax_error() {
    let mut forth = ForthInterpreter::new();
    assert_eq!(
        forth.execute_line("99999999999999999999"),
        Err(ForthError::SyntaxError)
    );
}

#[test]
fn test_text_token_pushes_string() {
    let mut forth = ForthInterpreter::new();
    forth.execute_line("\"hello there\"").unwrap();
    assert_eq!(
        stack_of(&forth),
        vec![Literal::String("hello there".to_string())]
    );
}

#[test]
fn test_constant_resolution() {
    let mut forth = ForthInterpreter::new();
    forth.set_constant("answer".to_string(), Literal::Integer(42));
    forth.execute_line("answer").unwrap();
    assert_eq!(stack_of(&forth), vec![Literal::Integer(42)]);
}

#[test]
fn test_set_variable_by_name() {
    let mut forth = ForthInterpreter::new();
    forth.set_variable("x".to_string(), Literal::Integer(8)).unwrap();
    assert!(forth.contains_variable(&"x".to_string()));
    assert_eq!(forth.get_variable_id(&"x".to_string()), Some(0));
    forth.execute_line("x @").unwrap();
    assert_eq!(stack_of(&forth), vec![Literal::Integer(8)]);
}

#[test]
fn test_bool_encoding() {
    assert!(ForthInterpreter::bool(&Literal::Integer(-1)));
    assert!(!ForthInterpreter::bool(&Literal::Integer(0)));
    assert!(!ForthInterpreter::bool(&Literal::Integer(5)));
    assert!(ForthInterpreter::bool(&Literal::String("x".to_string())));
}

#[test]
fn test_emit_rejects_bad_scalars() {
    let mut forth = ForthInterpreter::new();
    forth.push(Literal::Integer(0xD800));
    assert_eq!(forth.execute_line("emit"), Err(ForthError::InvalidOperands));
    let mut forth2 = ForthInterpreter::new();
    forth2.push(Literal::String("x".to_string()));
    assert_eq!(forth2.execute_line("emit"), Err(ForthError::InvalidOperands));
    let mut forth3 = ForthInterpreter::new();
    forth3.execute_line("65 emit cr").unwrap();
    assert_eq!(stack_of(&forth3), vec![Literal::Integer(65)]);
}

#[test]
fn test_binary_op_on_short_stack_underflows() {
    let mut forth = ForthInterpreter::new();
    assert_eq!(forth.execute_line("+"), Err(ForthError::StackUnderflow));
    let mut forth2 = ForthInterpreter::new();
    assert_eq!(forth2.execute_line("1 +"), Err(ForthError::StackUnderflow));
}

#[test]
fn test_wrapping_arithmetic() {
    let mut forth = ForthInterpreter::new();
    forth.execute_line("9223372036854775807 1 +").unwrap();
    assert_eq!(stack_of(&forth), vec![Literal::Integer(i64::MIN)]);
}

#[test]
fn test_display_forms() {
    assert_eq!(display_literal(&Literal::Integer(-42)), "-42");
    assert_eq!(display_literal(&Literal::Integer(0)), "0");
    assert_eq!(display_literal(&Literal::String("plain".to_string())), "plain");
    assert_eq!(
        display_literal(&Literal::Pointer(Pointer::new(3, 0))),
        "Pointer { address: 3, offset: 0 }"
    );
    assert_eq!(
        display_literal(&Literal::Array(vec![
            Literal::Integer(1),
            Literal::String("two".to_string())
        ])),
        "[1, two]"
    );
    assert_eq!(display_literal(&Literal::Unknown), "");
}

#[test]
fn test_heterogeneous_equality_of_literals() {
    let mut forth = ForthInterpreter::new();
    forth.push(Literal::Unknown);
    forth.push(Literal::Unknown);
    forth.execute_line("=").unwrap();
    assert_eq!(stack_of(&forth), vec![Literal::Integer(-1)]);
    let mut forth2 = ForthInterpreter::new();
    forth2.push(Literal::Array(vec![Literal::Integer(1)]));
    forth2.push(Literal::Array(vec![Literal::Integer(1)]));
    forth2.execute_line("=").unwrap();
    assert_eq!(stack_of(&forth2), vec![Literal::Integer(-1)]);
}

#[test]
fn test_variable_without_name_is_syntax_error() {
    let mut forth = ForthInterpreter::new();
    assert_eq!(forth.execute_line("variable"), Err(ForthError::SyntaxError));
}
