use asm_pil::ast::{
    ASMFile, ASMStatement, BinaryOperator, CompileError, Expression, InstructionParam,
    RegisterFlag,
};
use asm_pil::compiler::compile;
use asm_pil::expression::{build_number, direct_reference, next_reference};

fn dref(n: &str) -> Expression {
    direct_reference(n)
}

fn num(v: i128) -> Expression {
    build_number(v)
}

fn reg(name: &str, flag: Option<RegisterFlag>) -> ASMStatement {
    ASMStatement::RegisterDeclaration(0, name.to_owned(), flag)
}

fn bus() -> ASMStatement {
    reg("X", Some(RegisterFlag::IsDefaultAssignment))
}

fn param_bus(name: &str) -> InstructionParam {
    InstructionParam {
        name: name.to_owned(),
        assignment_reg_in: Some("X".to_owned()),
        assignment_reg_out: None,
        param_type: None,
    }
}

fn param_label(name: &str) -> InstructionParam {
    InstructionParam {
        name: name.to_owned(),
        assignment_reg_in: None,
        assignment_reg_out: None,
        param_type: Some("label".to_owned()),
    }
}

fn param_other(name: &str) -> InstructionParam {
    InstructionParam {
        name: name.to_owned(),
        assignment_reg_in: None,
        assignment_reg_out: None,
        param_type: Some("imm".to_owned()),
    }
}

fn instr_decl(name: &str, params: Vec<InstructionParam>, body: Vec<Expression>) -> ASMStatement {
    ASMStatement::InstructionDeclaration(0, name.to_owned(), params, body)
}

fn invoke(name: &str, args: Vec<Expression>) -> ASMStatement {
    ASMStatement::Instruction(0, name.to_owned(), args)
}

fn assign(reg_name: &str, value: Expression) -> ASMStatement {
    ASMStatement::Assignment(0, vec![reg_name.to_owned()], Some("X".to_owned()), value)
}

#[test]
fn duplicate_pc_register() {
    let input = ASMFile(vec![
        bus(),
        reg("pc", Some(RegisterFlag::IsPC)),
        reg("pc2", Some(RegisterFlag::IsPC)),
    ]);
    assert_eq!(compile(input).unwrap_err(), CompileError::DuplicateFlagRegister);
}

#[test]
fn duplicate_bus_register() {
    let input = ASMFile(vec![bus(), reg("Y", Some(RegisterFlag::IsDefaultAssignment))]);
    assert_eq!(compile(input).unwrap_err(), CompileError::DuplicateFlagRegister);
}

#[test]
fn multiplication_on_the_bus() {
    let input = ASMFile(vec![
        bus(),
        reg("A", None),
        assign(
            "A",
            Expression::BinaryOperation(
                Box::new(dref("A")),
                BinaryOperator::Mul,
                Box::new(num(2)),
            ),
        ),
    ]);
    assert_eq!(compile(input).unwrap_err(), CompileError::UnsupportedAssignmentExpression);
}

#[test]
fn string_on_the_bus() {
    let input = ASMFile(vec![
        bus(),
        reg("A", None),
        assign("A", Expression::Text("hello".to_owned())),
    ]);
    assert_eq!(compile(input).unwrap_err(), CompileError::UnsupportedAssignmentExpression);
}

#[test]
fn unsupported_param_kind() {
    let input = ASMFile(vec![
        bus(),
        instr_decl("odd", vec![param_other("v")], vec![]),
        invoke("odd", vec![num(1)]),
    ]);
    assert_eq!(compile(input).unwrap_err(), CompileError::UnsupportedParamKind);
}

#[test]
fn non_reference_label_arg() {
    let input = ASMFile(vec![
        bus(),
        reg("pc", Some(RegisterFlag::IsPC)),
        instr_decl("jmp", vec![param_label("l")], vec![Expression::BinaryOperation(
            Box::new(next_reference("pc")),
            BinaryOperator::Sub,
            Box::new(dref("l")),
        )]),
        invoke("jmp", vec![num(3)]),
    ]);
    assert_eq!(compile(input).unwrap_err(), CompileError::NonReferenceLabelArg);
}

#[test]
fn arity_mismatch() {
    let input = ASMFile(vec![
        bus(),
        instr_decl("nop", vec![], vec![]),
        invoke("nop", vec![num(1)]),
    ]);
    assert_eq!(compile(input).unwrap_err(), CompileError::Arity);
}

#[test]
fn unknown_label() {
    let input = ASMFile(vec![
        bus(),
        reg("pc", Some(RegisterFlag::IsPC)),
        instr_decl("jmp", vec![param_label("l")], vec![Expression::BinaryOperation(
            Box::new(next_reference("pc")),
            BinaryOperator::Sub,
            Box::new(dref("l")),
        )]),
        invoke("jmp", vec![dref("nowhere")]),
    ]);
    assert_eq!(compile(input).unwrap_err(), CompileError::UnknownLabel);
}

#[test]
fn multi_write_unsupported() {
    let input = ASMFile(vec![
        bus(),
        reg("A", None),
        reg("B", None),
        ASMStatement::Assignment(
            0,
            vec!["A".to_owned(), "B".to_owned()],
            Some("X".to_owned()),
            num(1),
        ),
    ]);
    assert_eq!(compile(input).unwrap_err(), CompileError::MultiWriteUnsupported);
}

#[test]
fn unknown_instruction() {
    let input = ASMFile(vec![bus(), invoke("ghostly", vec![])]);
    assert_eq!(compile(input).unwrap_err(), CompileError::UnknownInstruction);
}

#[test]
fn unknown_register_in_body() {
    let input = ASMFile(vec![
        bus(),
        instr_decl("setq", vec![], vec![Expression::BinaryOperation(
            Box::new(next_reference("Q")),
            BinaryOperator::Sub,
            Box::new(num(1)),
        )]),
    ]);
    assert_eq!(compile(input).unwrap_err(), CompileError::UnknownRegister);
}

#[test]
fn unknown_register_on_the_bus() {
    // The reducer accepts any bare reference; the missing ROM column is
    // caught when the program constants are filled.
    let input = ASMFile(vec![bus(), reg("A", None), assign("A", dref("B"))]);
    assert_eq!(compile(input).unwrap_err(), CompileError::UnknownRegister);
}

#[test]
fn multi_bus_param() {
    let input = ASMFile(vec![
        bus(),
        reg("A", None),
        instr_decl("two", vec![param_bus("a"), param_bus("b")], vec![]),
        invoke("two", vec![dref("A"), dref("A")]),
    ]);
    assert_eq!(compile(input).unwrap_err(), CompileError::MultiBusParam);
}

#[test]
fn unary_plus_on_the_bus() {
    let input = ASMFile(vec![
        bus(),
        reg("A", None),
        assign(
            "A",
            Expression::UnaryOperation(asm_pil::ast::UnaryOperator::Plus, Box::new(num(1))),
        ),
    ]);
    assert_eq!(compile(input).unwrap_err(), CompileError::UnsupportedAssignmentExpression);
}
