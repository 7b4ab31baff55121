use py_code_object::convert::{CodeUnit, Constant, Converter, Emitted, Outcome};
use py_code_object::frame::Frame;
use py_code_object::translate::{convert, opcode_named, ForeignInstr, Instr, Opcode};
use py_code_object::value::{binary_op, unary_op, BinaryOp, ErrorKind, UnaryOp, Value};
use std::collections::HashMap;

fn ins(size: usize, name: &str, arg: Option<usize>) -> ForeignInstr {
    ForeignInstr { size, name: name.to_string(), arg }
}

fn op(name: &str, arg: usize) -> ForeignInstr {
    ins(1, name, Some(arg))
}

fn bare(name: &str) -> ForeignInstr {
    ins(1, name, None)
}

fn unit(instructions: Vec<ForeignInstr>, consts: Vec<Constant>, names: Vec<&str>) -> CodeUnit {
    CodeUnit {
        instructions,
        consts,
        names: names.into_iter().map(|n| n.to_string()).collect(),
        varnames: Vec::new(),
    }
}

fn run(code: CodeUnit) -> (Converter, Result<Value, ErrorKind>) {
    let mut c = Converter::new();
    let r = c.run_code(code);
    (c, r)
}

#[test]
fn scenario_add_two_constants() {
    let code = unit(
        vec![
            ins(3, "LOAD_CONST", Some(0)),
            ins(3, "LOAD_CONST", Some(1)),
            ins(1, "BINARY_ADD", None),
            ins(1, "RETURN_VALUE", None),
        ],
        vec![Constant::Int(5), Constant::Int(3)],
        vec![],
    );
    let (_, r) = run(code);
    assert_eq!(r, Ok(Value::Int(8)));
}

fn loop_with_break() -> CodeUnit {
    unit(
        vec![
            op("SETUP_LOOP", 16),
            op("LOAD_CONST", 0),
            op("LOAD_CONST", 1),
            op("LOAD_CONST", 2),
            op("BUILD_LIST", 3),
            bare("GET_ITER"),
            op("FOR_ITER", 9),
            op("STORE_NAME", 0),
            op("LOAD_NAME", 0),
            bare("PRINT_ITEM"),
            op("LOAD_NAME", 0),
            op("LOAD_CONST", 1),
            op("COMPARE_OP", 2),
            op("POP_JUMP_IF_FALSE", 15),
            bare("BREAK_LOOP"),
            op("JUMP_ABSOLUTE", 6),
            bare("POP_BLOCK"),
            op("LOAD_NAME", 0),
            bare("RETURN_VALUE"),
        ],
        vec![Constant::Int(1), Constant::Int(2), Constant::Int(3)],
        vec!["x"],
    )
}

#[test]
fn scenario_break_in_iteration() {
    let (c, r) = run(loop_with_break());
    assert_eq!(r, Ok(Value::Int(2)));
    assert_eq!(c.output, vec![Emitted::Item(Value::Int(1)), Emitted::Item(Value::Int(2))]);
}

#[test]
fn break_resumes_at_handler() {
    let mut c = Converter::new();
    let u = c.load_unit(&loop_with_break()).unwrap();
    let mut f = c.make_frame(u, &Vec::new(), HashMap::new()).unwrap();
    loop {
        let at = f.pc;
        let is_break = c.units[u].instrs[at] == Instr::Break;
        let depth = f.blocks.len();
        let out = c.step(&mut f).unwrap();
        assert!(matches!(out, Outcome::Continue));
        if is_break {
            assert_eq!(f.pc, 17);
            assert_eq!(f.blocks.len(), depth - 1);
            break;
        }
    }
}

#[test]
fn scenario_call_user_function() {
    let mut c = Converter::new();
    let body = unit(
        vec![op("LOAD_CONST", 0), bare("RETURN_VALUE")],
        vec![Constant::Int(42)],
        vec![],
    );
    let f = c.load_unit(&body).unwrap();
    let main = unit(
        vec![
            op("LOAD_CONST", 0),
            op("LOAD_CONST", 1),
            op("MAKE_FUNCTION", 0),
            op("STORE_NAME", 0),
            op("LOAD_NAME", 0),
            op("CALL_FUNCTION", 0),
            bare("RETURN_VALUE"),
        ],
        vec![Constant::Code(f), Constant::Text("f".to_string())],
        vec!["f"],
    );
    assert_eq!(c.run_code(main), Ok(Value::Int(42)));
    assert!(c.frames.is_empty());
}

#[test]
fn scenario_store_subscript_on_text() {
    let mut c = Converter::new();
    let code = unit(
        vec![
            op("LOAD_CONST", 0),
            op("LOAD_CONST", 1),
            op("LOAD_CONST", 2),
            bare("STORE_SUBSCR"),
            bare("RETURN_VALUE"),
        ],
        vec![Constant::Int(7), Constant::Text("abc".to_string()), Constant::Int(0)],
        vec![],
    );
    let u = c.load_unit(&code).unwrap();
    let mut f = c.make_frame(u, &Vec::new(), HashMap::new()).unwrap();
    for _ in 0..3 {
        c.step(&mut f).unwrap();
    }
    let depth = f.stack.len();
    assert_eq!(depth, 3);
    assert!(matches!(c.step(&mut f), Err(ErrorKind::TypeMismatch)));
    assert_eq!(f.stack.len(), depth);
}

#[test]
fn list_aliasing_is_visible() {
    let code = unit(
        vec![
            op("LOAD_CONST", 0),
            op("LOAD_CONST", 1),
            op("BUILD_LIST", 2),
            op("STORE_NAME", 0),
            op("LOAD_NAME", 0),
            op("STORE_NAME", 1),
            op("LOAD_CONST", 2),
            op("LOAD_NAME", 0),
            op("LOAD_CONST", 3),
            bare("STORE_SUBSCR"),
            op("LOAD_NAME", 1),
            bare("RETURN_VALUE"),
        ],
        vec![Constant::Int(1), Constant::Int(2), Constant::Int(9), Constant::Int(0)],
        vec!["a", "b"],
    );
    let (c, r) = run(code);
    match r {
        Ok(Value::List(h)) => assert_eq!(c.heap[h], vec![Value::Int(9), Value::Int(2)]),
        other => panic!("expected a list, got {:?}", other),
    }
}

#[test]
fn int_plus_int_stays_int() {
    assert_eq!(binary_op(BinaryOp::Add, Value::Int(2), Value::Int(40)), Ok(Value::Int(42)));
}

#[test]
fn text_plus_list_leaves_stack_alone() {
    let mut f = Frame::new(0, HashMap::new());
    f.stack.push(Value::Int(1));
    f.stack.push(Value::Text(0));
    f.stack.push(Value::List(0));
    assert_eq!(f.binary(BinaryOp::Add), Err(ErrorKind::TypeMismatch));
    assert_eq!(f.stack, vec![Value::Int(1), Value::Text(0), Value::List(0)]);
}

#[test]
fn straight_line_code_runs_in_order() {
    let mut c = Converter::new();
    let code = unit(
        vec![
            op("LOAD_CONST", 0),
            op("LOAD_CONST", 1),
            bare("ROT_TWO"),
            bare("POP_TOP"),
            bare("RETURN_VALUE"),
        ],
        vec![Constant::Int(1), Constant::Int(2)],
        vec![],
    );
    let u = c.load_unit(&code).unwrap();
    let mut f = c.make_frame(u, &Vec::new(), HashMap::new()).unwrap();
    for expected in 1..5 {
        assert!(matches!(c.step(&mut f), Ok(Outcome::Continue)));
        assert_eq!(f.pc, expected);
    }
    assert!(matches!(c.step(&mut f), Ok(Outcome::Returned)));
    assert_eq!(f.ret, Value::Int(2));
}

#[test]
fn running_off_the_end_is_malformed() {
    let code = unit(vec![op("LOAD_CONST", 0)], vec![Constant::Int(1)], vec![]);
    assert_eq!(run(code).1, Err(ErrorKind::MalformedBytecode));
}

#[test]
fn label_map_is_deterministic() {
    let code = vec![
        ins(3, "LOAD_CONST", Some(0)),
        ins(3, "POP_JUMP_IF_FALSE", Some(10)),
        ins(0, "SetLineno", Some(4)),
        ins(1, "RETURN_VALUE", None),
        ins(3, "JUMP_FORWARD", Some(0)),
        ins(1, "RETURN_VALUE", None),
    ];
    let a = convert(&code).unwrap();
    let b = convert(&code).unwrap();
    assert_eq!(a, b);
    assert_eq!(a[1], Instr::JumpIfFalse(5));
    assert_eq!(a[2], Instr::Nop);
    assert_eq!(a[4], Instr::Jump(5));
}

#[test]
fn zero_sized_markers_resolve_to_last() {
    let code = vec![
        ins(3, "JUMP_ABSOLUTE", Some(3)),
        ins(0, "LABEL", None),
        ins(0, "SetLineno", Some(1)),
        ins(1, "RETURN_VALUE", None),
    ];
    assert_eq!(convert(&code).unwrap()[0], Instr::Jump(3));
}

#[test]
fn unresolved_jump_is_malformed() {
    let code = vec![ins(3, "JUMP_ABSOLUTE", Some(2)), ins(1, "RETURN_VALUE", None)];
    assert_eq!(convert(&code), Err(ErrorKind::MalformedBytecode));
}

#[test]
fn empty_code_is_malformed() {
    assert_eq!(convert(&Vec::new()), Err(ErrorKind::MalformedBytecode));
    assert_eq!(run(unit(vec![], vec![], vec![])).1, Err(ErrorKind::MalformedBytecode));
}

#[test]
fn opcode_names_are_looked_up() {
    assert_eq!(opcode_named(&"BINARY_MODULO".to_string()), Opcode::BinaryModulo);
    assert_eq!(opcode_named(&"LABEL".to_string()), Opcode::Marker);
    assert_eq!(opcode_named(&"YIELD_VALUE".to_string()), Opcode::Unknown);
}

#[test]
fn unknown_opcode_fails_when_reached() {
    let code = unit(vec![bare("YIELD_VALUE"), bare("RETURN_VALUE")], vec![], vec![]);
    assert_eq!(run(code).1, Err(ErrorKind::UnsupportedInstruction));
}

#[test]
fn unbound_name_fails() {
    let code = unit(vec![op("LOAD_NAME", 0), bare("RETURN_VALUE")], vec![], vec!["nothing"]);
    assert_eq!(run(code).1, Err(ErrorKind::UnboundName));
}

#[test]
fn unimplemented_comparison_fails() {
    let code = unit(
        vec![op("LOAD_CONST", 0), op("LOAD_CONST", 0), op("COMPARE_OP", 0), bare("RETURN_VALUE")],
        vec![Constant::Int(1)],
        vec![],
    );
    assert_eq!(run(code).1, Err(ErrorKind::UnsupportedInstruction));
}

#[test]
fn greater_than_compares_deeper_with_top() {
    let code = unit(
        vec![op("LOAD_CONST", 0), op("LOAD_CONST", 1), op("COMPARE_OP", 4), bare("RETURN_VALUE")],
        vec![Constant::Int(5), Constant::Int(3)],
        vec![],
    );
    assert_eq!(run(code).1, Ok(Value::Bool(true)));
}

#[test]
fn texts_compare_by_content() {
    let code = unit(
        vec![op("LOAD_CONST", 0), op("LOAD_CONST", 1), op("COMPARE_OP", 2), bare("RETURN_VALUE")],
        vec![Constant::Text("ab".to_string()), Constant::Text("ab".to_string())],
        vec![],
    );
    assert_eq!(run(code).1, Ok(Value::Bool(true)));
}

#[test]
fn raise_aborts_with_value() {
    let code = unit(vec![op("LOAD_CONST", 0), op("RAISE_VARARGS", 1)], vec![Constant::Int(7)], vec![]);
    assert_eq!(run(code).1, Err(ErrorKind::UserRaise(Value::Int(7))));
    let code = unit(vec![op("RAISE_VARARGS", 0)], vec![], vec![]);
    assert_eq!(run(code).1, Err(ErrorKind::UnsupportedInstruction));
}

#[test]
fn stack_underflow_fails() {
    let code = unit(vec![bare("POP_TOP"), bare("RETURN_VALUE")], vec![], vec![]);
    assert_eq!(run(code).1, Err(ErrorKind::StackUnderflow));
}

#[test]
fn arithmetic_values() {
    assert_eq!(binary_op(BinaryOp::Subtract, Value::Int(2), Value::Int(5)), Ok(Value::Int(-3)));
    assert_eq!(binary_op(BinaryOp::Multiply, Value::Int(-4), Value::Int(5)), Ok(Value::Int(-20)));
    assert_eq!(binary_op(BinaryOp::Modulo, Value::Int(7), Value::Int(3)), Ok(Value::Int(1)));
    assert_eq!(binary_op(BinaryOp::Modulo, Value::Int(-7), Value::Int(3)), Ok(Value::Int(2)));
    assert_eq!(binary_op(BinaryOp::Modulo, Value::Int(7), Value::Int(-3)), Ok(Value::Int(-2)));
    assert_eq!(binary_op(BinaryOp::Modulo, Value::Int(i64::MIN), Value::Int(-1)), Ok(Value::Int(0)));
    assert_eq!(binary_op(BinaryOp::Power, Value::Int(2), Value::Int(10)), Ok(Value::Int(1024)));
    assert_eq!(binary_op(BinaryOp::Power, Value::Int(-2), Value::Int(63)), Ok(Value::Int(i64::MIN)));
    assert_eq!(binary_op(BinaryOp::Power, Value::Int(5), Value::Int(0)), Ok(Value::Int(1)));
    assert_eq!(unary_op(UnaryOp::Negate, Value::Int(4)), Ok(Value::Int(-4)));
    assert_eq!(unary_op(UnaryOp::Identity, Value::Int(4)), Ok(Value::Int(4)));
}

#[test]
fn arithmetic_errors() {
    assert_eq!(binary_op(BinaryOp::Add, Value::Int(i64::MAX), Value::Int(1)), Err(ErrorKind::ArithmeticError));
    assert_eq!(binary_op(BinaryOp::Modulo, Value::Int(1), Value::Int(0)), Err(ErrorKind::ArithmeticError));
    assert_eq!(binary_op(BinaryOp::Power, Value::Int(2), Value::Int(64)), Err(ErrorKind::ArithmeticError));
    assert_eq!(binary_op(BinaryOp::Power, Value::Int(2), Value::Int(-1)), Err(ErrorKind::ArithmeticError));
    assert_eq!(binary_op(BinaryOp::TrueDivide, Value::Int(1), Value::Int(2)), Err(ErrorKind::TypeMismatch));
    assert_eq!(unary_op(UnaryOp::Negate, Value::Int(i64::MIN)), Err(ErrorKind::ArithmeticError));
    assert_eq!(unary_op(UnaryOp::Negate, Value::Bool(true)), Err(ErrorKind::TypeMismatch));
}

#[test]
fn subscript_out_of_range_fails() {
    let code = unit(
        vec![
            op("LOAD_CONST", 0),
            op("LOAD_CONST", 0),
            op("BUILD_LIST", 1),
            op("LOAD_CONST", 1),
            bare("STORE_SUBSCR"),
            bare("RETURN_VALUE"),
        ],
        vec![Constant::Int(1), Constant::Int(5)],
        vec![],
    );
    assert_eq!(run(code).1, Err(ErrorKind::IndexOutOfRange));
}

#[test]
fn slice_from_bounds() {
    let code = unit(
        vec![op("LOAD_CONST", 0), op("LOAD_CONST", 1), op("BUILD_SLICE", 2), bare("RETURN_VALUE")],
        vec![Constant::Int(1), Constant::NoneValue],
        vec![],
    );
    assert_eq!(run(code).1, Ok(Value::Slice(Some(1), None, None)));
    let code = unit(
        vec![op("LOAD_CONST", 0), op("LOAD_CONST", 1), op("BUILD_SLICE", 2), bare("RETURN_VALUE")],
        vec![Constant::Int(1), Constant::Bool(true)],
        vec![],
    );
    assert_eq!(run(code).1, Err(ErrorKind::TypeMismatch));
}

#[test]
fn primitives_print_and_len() {
    let code = unit(
        vec![
            op("LOAD_NAME", 0),
            op("LOAD_CONST", 0),
            op("CALL_FUNCTION", 1),
            bare("POP_TOP"),
            op("LOAD_NAME", 1),
            op("LOAD_CONST", 0),
            op("CALL_FUNCTION", 1),
            bare("RETURN_VALUE"),
        ],
        vec![Constant::Text("héllo".to_string())],
        vec!["print", "len"],
    );
    let (c, r) = run(code);
    assert_eq!(r, Ok(Value::Int(5)));
    assert_eq!(c.output, vec![Emitted::Item(Value::Text(0)), Emitted::Newline]);
    assert_eq!(c.texts[0], "héllo");
}

#[test]
fn function_arguments_bind_to_local_names() {
    let mut c = Converter::new();
    let body = CodeUnit {
        instructions: vec![op("LOAD_FAST", 0), op("LOAD_FAST", 1), bare("BINARY_SUBTRACT"), bare("RETURN_VALUE")],
        consts: vec![],
        names: vec![],
        varnames: vec!["a".to_string(), "b".to_string()],
    };
    let f = c.load_unit(&body).unwrap();
    let main = unit(
        vec![
            op("LOAD_CONST", 0),
            op("LOAD_CONST", 1),
            op("MAKE_FUNCTION", 0),
            op("LOAD_CONST", 2),
            op("LOAD_CONST", 3),
            op("LOAD_CONST", 1),
            op("LOAD_CONST", 2),
            op("CALL_FUNCTION", 0x102),
            bare("RETURN_VALUE"),
        ],
        vec![Constant::Code(f), Constant::Text("f".to_string()), Constant::Int(10), Constant::Int(4)],
        vec![],
    );
    assert_eq!(c.run_code(main), Ok(Value::Int(6)));
}

#[test]
fn calling_a_non_callable_fails() {
    let code = unit(vec![op("LOAD_CONST", 0), op("CALL_FUNCTION", 0), bare("RETURN_VALUE")], vec![Constant::Int(1)], vec![]);
    assert_eq!(run(code).1, Err(ErrorKind::UnsupportedInstruction));
}

#[test]
fn break_outside_loop_is_malformed() {
    let code = unit(vec![bare("BREAK_LOOP"), bare("RETURN_VALUE")], vec![], vec![]);
    assert_eq!(run(code).1, Err(ErrorKind::MalformedBytecode));
}

#[test]
fn exhausted_loop_exits_normally() {
    let code = unit(
        vec![
            op("LOAD_CONST", 0),
            op("STORE_NAME", 0),
            op("SETUP_LOOP", 12),
            op("LOAD_CONST", 1),
            op("LOAD_CONST", 2),
            op("BUILD_LIST", 2),
            bare("GET_ITER"),
            op("FOR_ITER", 6),
            op("STORE_NAME", 1),
            op("LOAD_NAME", 0),
            op("LOAD_NAME", 1),
            bare("INPLACE_ADD"),
            op("STORE_NAME", 0),
            op("JUMP_ABSOLUTE", 7),
            bare("POP_BLOCK"),
            op("LOAD_NAME", 0),
            bare("RETURN_VALUE"),
        ],
        vec![Constant::Int(0), Constant::Int(3), Constant::Int(4)],
        vec!["total", "x"],
    );
    assert_eq!(run(code).1, Ok(Value::Int(7)));
}

#[test]
fn endless_loop_stops_at_step_limit() {
    let mut c = Converter::new();
    c.steps_left = 100;
    let code = unit(vec![op("JUMP_ABSOLUTE", 0)], vec![], vec![]);
    assert_eq!(c.run_code(code), Err(ErrorKind::StepLimit));
    assert_eq!(c.steps_left, 0);
}

#[test]
fn keyword_key_must_be_text() {
    let code = unit(
        vec![
            op("LOAD_NAME", 0),
            op("LOAD_CONST", 0),
            op("LOAD_CONST", 0),
            op("CALL_FUNCTION", 0x100),
            bare("RETURN_VALUE"),
        ],
        vec![Constant::Int(1)],
        vec!["len"],
    );
    assert_eq!(run(code).1, Err(ErrorKind::TypeMismatch));
}

#[test]
fn len_needs_one_sequence() {
    let code = unit(
        vec![op("LOAD_NAME", 0), op("LOAD_CONST", 0), op("CALL_FUNCTION", 1), bare("RETURN_VALUE")],
        vec![Constant::Int(1)],
        vec!["len"],
    );
    assert_eq!(run(code).1, Err(ErrorKind::TypeMismatch));
}

#[test]
fn global_load_skips_locals() {
    let mut f = Frame::new(0, HashMap::new());
    f.locals.insert(3, Value::Int(1));
    assert_eq!(f.load(3, true), Err(ErrorKind::UnboundName));
    assert_eq!(f.load(3, false), Ok(()));
    assert_eq!(f.stack, vec![Value::Int(1)]);
}

fn nested_lists_compare(inner_b: i64) -> Result<Value, ErrorKind> {
    let code = unit(
        vec![
            op("LOAD_CONST", 0),
            op("BUILD_LIST", 1),
            op("BUILD_LIST", 1),
            op("LOAD_CONST", 1),
            op("BUILD_LIST", 1),
            op("BUILD_LIST", 1),
            op("COMPARE_OP", 2),
            bare("RETURN_VALUE"),
        ],
        vec![Constant::Int(1), Constant::Int(inner_b)],
        vec![],
    );
    run(code).1
}

#[test]
fn nested_lists_compare_by_contents() {
    assert_eq!(nested_lists_compare(1), Ok(Value::Bool(true)));
    assert_eq!(nested_lists_compare(2), Ok(Value::Bool(false)));
}

#[test]
fn texts_in_lists_compare_by_content() {
    let mut c = Converter::new();
    c.texts.push("ab".to_string());
    c.texts.push("ab".to_string());
    c.heap.push(vec![Value::Text(0)]);
    c.heap.push(vec![Value::Text(1)]);
    let a = c.heap[0].clone();
    let b = c.heap[1].clone();
    assert_eq!(c.seq_equal(&a, &b, 4), Ok(true));
}

#[test]
fn self_holding_list_is_too_deep() {
    let mut c = Converter::new();
    c.heap.push(vec![Value::List(0)]);
    c.heap.push(vec![Value::List(0)]);
    let a = c.heap[0].clone();
    let b = c.heap[1].clone();
    assert_eq!(c.seq_equal(&a, &b, 8), Err(ErrorKind::TooDeep));
}

#[test]
fn loading_records_constants_and_names() {
    let mut c = Converter::new();
    let code = unit(
        vec![bare("RETURN_VALUE")],
        vec![Constant::Text("hi".to_string()), Constant::Int(3)],
        vec!["len", "zed"],
    );
    let u = c.load_unit(&code).unwrap();
    assert_eq!(c.units[u].consts, vec![Value::Text(0), Value::Int(3)]);
    assert_eq!(c.units[u].names, vec![1, 2]);
    assert_eq!(c.symbols[2], "zed");
    let bad = unit(vec![bare("RETURN_VALUE")], vec![Constant::Code(9)], vec![]);
    assert_eq!(c.load_unit(&bad), Err(ErrorKind::MalformedBytecode));
}

#[test]
fn empty_unit_emits_nothing() {
    let (c, r) = run(unit(vec![], vec![], vec![]));
    assert_eq!(r, Err(ErrorKind::MalformedBytecode));
    assert!(c.output.is_empty());
}
