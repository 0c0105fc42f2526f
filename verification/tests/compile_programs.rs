use asm_pil::ast::{
    ASMFile, ASMStatement, BinaryOperator, Expression, FunctionDefinition, InstructionParam,
    PILFile, RegisterFlag, SelectedExpressions, Statement,
};
use asm_pil::compiler::compile;
use asm_pil::expression::{
    build_number, direct_reference, next_reference, statement_eq, statements_eq,
};

fn dref(n: &str) -> Expression {
    direct_reference(n)
}

fn nref(n: &str) -> Expression {
    next_reference(n)
}

fn num(v: i128) -> Expression {
    build_number(v)
}

fn eadd(l: Expression, r: Expression) -> Expression {
    Expression::BinaryOperation(Box::new(l), BinaryOperator::Add, Box::new(r))
}

fn esub(l: Expression, r: Expression) -> Expression {
    Expression::BinaryOperation(Box::new(l), BinaryOperator::Sub, Box::new(r))
}

fn emul(l: Expression, r: Expression) -> Expression {
    Expression::BinaryOperation(Box::new(l), BinaryOperator::Mul, Box::new(r))
}

fn free(e: Expression) -> Expression {
    Expression::FreeInput(Box::new(e))
}

fn witness(name: &str) -> Statement {
    asm_pil::expression::witness_column(0, name)
}

fn polyid(e: Expression) -> Statement {
    Statement::PolynomialIdentity(0, e)
}

fn constdef(name: &str, vals: &[i128]) -> Statement {
    let values = vals.iter().map(|v| build_number(*v)).collect();
    Statement::PolynomialConstantDefinition(0, name.to_owned(), FunctionDefinition::Array(values))
}

fn line_def() -> Statement {
    Statement::PolynomialConstantDefinition(
        0,
        "line".to_owned(),
        FunctionDefinition::Mapping(vec!["i".to_owned()], dref("i")),
    )
}

fn reg(name: &str, flag: Option<RegisterFlag>) -> ASMStatement {
    ASMStatement::RegisterDeclaration(0, name.to_owned(), flag)
}

fn param_bus(name: &str, bus: &str) -> InstructionParam {
    InstructionParam {
        name: name.to_owned(),
        assignment_reg_in: Some(bus.to_owned()),
        assignment_reg_out: None,
        param_type: None,
    }
}

fn param_label(name: &str) -> InstructionParam {
    InstructionParam {
        name: name.to_owned(),
        assignment_reg_in: None,
        assignment_reg_out: None,
        param_type: Some("label".to_owned()),
    }
}

fn instr_decl(name: &str, params: Vec<InstructionParam>, body: Vec<Expression>) -> ASMStatement {
    ASMStatement::InstructionDeclaration(0, name.to_owned(), params, body)
}

fn invoke(name: &str, args: Vec<Expression>) -> ASMStatement {
    ASMStatement::Instruction(0, name.to_owned(), args)
}

fn label(name: &str) -> ASMStatement {
    ASMStatement::Label(0, name.to_owned())
}

fn assign(reg_name: &str, value: Expression) -> ASMStatement {
    ASMStatement::Assignment(0, vec![reg_name.to_owned()], Some("X".to_owned()), value)
}

fn plookup(left: Vec<Expression>, right: Vec<Expression>) -> Statement {
    Statement::PlookupIdentity(
        0,
        SelectedExpressions { selector: None, expressions: left },
        SelectedExpressions { selector: None, expressions: right },
    )
}

/// A complete small machine: two registers, an assignment bus with an
/// inverse helper, four instructions, and a counting loop.
fn simple_sum_input() -> ASMFile {
    let inline = ASMStatement::InlinePil(
        0,
        vec![
            witness("XInv"),
            Statement::PolynomialDefinition(
                0,
                "XIsZero".to_owned(),
                esub(num(1), emul(dref("X"), dref("XInv"))),
            ),
            polyid(emul(dref("XIsZero"), dref("X"))),
        ],
    );
    let jmpz_body = esub(
        nref("pc"),
        eadd(
            emul(dref("XIsZero"), dref("l")),
            emul(esub(num(1), dref("XIsZero")), eadd(dref("pc"), num(1))),
        ),
    );
    ASMFile(vec![
        reg("X", Some(RegisterFlag::IsDefaultAssignment)),
        reg("A", None),
        reg("CNT", None),
        reg("pc", Some(RegisterFlag::IsPC)),
        inline,
        instr_decl(
            "jmpz",
            vec![param_bus("condition", "X"), param_label("l")],
            vec![jmpz_body],
        ),
        instr_decl(
            "jmp",
            vec![param_label("l")],
            vec![esub(nref("pc"), dref("l"))],
        ),
        instr_decl(
            "dec_CNT",
            vec![],
            vec![esub(nref("CNT"), esub(dref("CNT"), num(1)))],
        ),
        instr_decl(
            "assert_zero",
            vec![param_bus("value", "X")],
            vec![esub(dref("XIsZero"), num(1))],
        ),
        assign("CNT", free(num(0))),
        label("start"),
        invoke("jmpz", vec![dref("CNT"), dref("end")]),
        assign("A", eadd(dref("A"), free(num(0)))),
        invoke("dec_CNT", vec![]),
        invoke("jmp", vec![dref("start")]),
        label("end"),
        assign("A", eadd(dref("A"), free(num(0)))),
        invoke("assert_zero", vec![dref("A")]),
    ])
}

fn simple_sum_expected() -> Vec<Statement> {
    let bus_rhs = eadd(
        eadd(
            eadd(
                eadd(
                    emul(dref("read_X_A"), dref("A")),
                    emul(dref("read_X_CNT"), dref("CNT")),
                ),
                emul(dref("read_X_pc"), dref("pc")),
            ),
            dref("X_const"),
        ),
        emul(dref("X_read_free"), dref("X_free_value")),
    );
    let a_update = eadd(
        emul(dref("reg_write_A"), dref("X")),
        emul(esub(num(1), dref("reg_write_A")), dref("A")),
    );
    let cnt_update = eadd(
        eadd(
            emul(dref("reg_write_CNT"), dref("X")),
            emul(dref("instr_dec_CNT"), esub(dref("CNT"), num(1))),
        ),
        emul(
            esub(num(1), eadd(dref("reg_write_CNT"), dref("instr_dec_CNT"))),
            dref("CNT"),
        ),
    );
    let pc_update = eadd(
        eadd(
            emul(
                dref("instr_jmpz"),
                eadd(
                    emul(dref("XIsZero"), dref("instr_jmpz_param_l")),
                    emul(esub(num(1), dref("XIsZero")), eadd(dref("pc"), num(1))),
                ),
            ),
            emul(dref("instr_jmp"), dref("instr_jmp_param_l")),
        ),
        emul(
            esub(num(1), eadd(dref("instr_jmpz"), dref("instr_jmp"))),
            eadd(dref("pc"), num(1)),
        ),
    );
    vec![
        witness("X"),
        witness("reg_write_A"),
        witness("A"),
        witness("reg_write_CNT"),
        witness("CNT"),
        witness("pc"),
        witness("XInv"),
        Statement::PolynomialDefinition(
            0,
            "XIsZero".to_owned(),
            esub(num(1), emul(dref("X"), dref("XInv"))),
        ),
        polyid(emul(dref("XIsZero"), dref("X"))),
        witness("instr_jmpz"),
        witness("instr_jmpz_param_l"),
        witness("instr_jmp"),
        witness("instr_jmp_param_l"),
        witness("instr_dec_CNT"),
        witness("instr_assert_zero"),
        polyid(emul(dref("instr_assert_zero"), esub(dref("XIsZero"), num(1)))),
        witness("X_const"),
        witness("X_read_free"),
        witness("X_free_value"),
        witness("read_X_A"),
        witness("read_X_CNT"),
        witness("read_X_pc"),
        polyid(esub(dref("X"), bus_rhs)),
        polyid(esub(nref("A"), a_update)),
        polyid(esub(nref("CNT"), cnt_update)),
        polyid(esub(nref("pc"), pc_update)),
        line_def(),
        constdef("p_X_const", &[0, 0, 0, 0, 0, 0, 0, 0, 0]),
        constdef("p_X_read_free", &[1, 0, 0, 1, 0, 0, 0, 1, 0]),
        constdef("p_instr_assert_zero", &[0, 0, 0, 0, 0, 0, 0, 0, 1]),
        constdef("p_instr_dec_CNT", &[0, 0, 0, 0, 1, 0, 0, 0, 0]),
        constdef("p_instr_jmp", &[0, 0, 0, 0, 0, 1, 0, 0, 0]),
        constdef("p_instr_jmp_param_l", &[0, 0, 0, 0, 0, 1, 0, 0, 0]),
        constdef("p_instr_jmpz", &[0, 0, 1, 0, 0, 0, 0, 0, 0]),
        constdef("p_instr_jmpz_param_l", &[0, 0, 6, 0, 0, 0, 0, 0, 0]),
        constdef("p_read_X_A", &[0, 0, 0, 1, 0, 0, 0, 1, 1]),
        constdef("p_read_X_CNT", &[0, 0, 1, 0, 0, 0, 0, 0, 0]),
        constdef("p_read_X_pc", &[0, 0, 0, 0, 0, 0, 0, 0, 0]),
        constdef("p_reg_write_A", &[0, 0, 0, 1, 0, 0, 0, 1, 0]),
        constdef("p_reg_write_CNT", &[1, 0, 0, 0, 0, 0, 0, 0, 0]),
        plookup(
            vec![
                dref("reg_write_A"),
                dref("reg_write_CNT"),
                dref("pc"),
                dref("instr_jmpz"),
                dref("instr_jmpz_param_l"),
                dref("instr_jmp"),
                dref("instr_jmp_param_l"),
                dref("instr_dec_CNT"),
                dref("instr_assert_zero"),
                dref("X_const"),
                dref("X_read_free"),
                dref("read_X_A"),
                dref("read_X_CNT"),
                dref("read_X_pc"),
            ],
            vec![
                dref("p_reg_write_A"),
                dref("p_reg_write_CNT"),
                dref("line"),
                dref("p_instr_jmpz"),
                dref("p_instr_jmpz_param_l"),
                dref("p_instr_jmp"),
                dref("p_instr_jmp_param_l"),
                dref("p_instr_dec_CNT"),
                dref("p_instr_assert_zero"),
                dref("p_X_const"),
                dref("p_X_read_free"),
                dref("p_read_X_A"),
                dref("p_read_X_CNT"),
                dref("p_read_X_pc"),
            ],
        ),
    ]
}

#[test]
pub fn compile_simple_sum() {
    let pil = compile(simple_sum_input()).unwrap();
    let expected = simple_sum_expected();
    assert_eq!(pil.0.len(), expected.len());
    for (i, (got, want)) in pil.0.iter().zip(expected.iter()).enumerate() {
        assert!(statement_eq(got, want), "statement {i} differs: {got:?} vs {want:?}");
    }
}

#[test]
fn compile_is_deterministic() {
    let a = compile(simple_sum_input()).unwrap();
    let b = compile(simple_sum_input()).unwrap();
    assert!(statements_eq(&a.0, &b.0));
}

/// A program whose only work is one free-input read.
#[test]
fn single_free_input_read() {
    let input = ASMFile(vec![
        reg("X", Some(RegisterFlag::IsDefaultAssignment)),
        reg("A", None),
        assign("A", free(num(0))),
    ]);
    let pil = compile(input).unwrap();
    let expected = vec![
        witness("X"),
        witness("reg_write_A"),
        witness("A"),
        witness("X_const"),
        witness("X_read_free"),
        witness("X_free_value"),
        witness("read_X_A"),
        polyid(esub(
            dref("X"),
            eadd(
                eadd(emul(dref("read_X_A"), dref("A")), dref("X_const")),
                emul(dref("X_read_free"), dref("X_free_value")),
            ),
        )),
        polyid(esub(
            nref("A"),
            eadd(
                emul(dref("reg_write_A"), dref("X")),
                emul(esub(num(1), dref("reg_write_A")), dref("A")),
            ),
        )),
        line_def(),
        constdef("p_X_const", &[0]),
        constdef("p_X_read_free", &[1]),
        constdef("p_read_X_A", &[0]),
        constdef("p_reg_write_A", &[1]),
        plookup(
            vec![
                dref("reg_write_A"),
                dref("X_const"),
                dref("X_read_free"),
                dref("read_X_A"),
            ],
            vec![
                dref("p_reg_write_A"),
                dref("p_X_const"),
                dref("p_X_read_free"),
                dref("p_read_X_A"),
            ],
        ),
    ];
    assert_eq!(pil.0.len(), expected.len());
    for (i, (got, want)) in pil.0.iter().zip(expected.iter()).enumerate() {
        assert!(statement_eq(got, want), "statement {i} differs: {got:?} vs {want:?}");
    }
}

/// A jump whose target is the line right after it: the stored position is
/// the following line's index.
#[test]
fn jump_to_next_line() {
    let input = ASMFile(vec![
        reg("X", Some(RegisterFlag::IsDefaultAssignment)),
        reg("pc", Some(RegisterFlag::IsPC)),
        instr_decl("jmp", vec![param_label("l")], vec![esub(nref("pc"), dref("l"))]),
        invoke("jmp", vec![dref("here")]),
        label("here"),
    ]);
    let pil = compile(input).unwrap();
    let expected_param = constdef("p_instr_jmp_param_l", &[1, 0]);
    let found = pil.0.iter().any(|s| statement_eq(s, &expected_param));
    assert!(found, "expected p_instr_jmp_param_l = [1, 0] in {:?}", pil.0);
    let expected_instr = constdef("p_instr_jmp", &[1, 0]);
    assert!(pil.0.iter().any(|s| statement_eq(s, &expected_instr)));
}

/// An instruction whose body writes two distinct registers: both registers'
/// update identities carry the instruction's conditioned update.
#[test]
fn instruction_writing_two_registers() {
    let input = ASMFile(vec![
        reg("X", Some(RegisterFlag::IsDefaultAssignment)),
        reg("A", None),
        reg("B", None),
        instr_decl(
            "bump",
            vec![],
            vec![
                esub(nref("A"), eadd(dref("A"), num(1))),
                esub(nref("B"), eadd(dref("B"), num(2))),
            ],
        ),
        invoke("bump", vec![]),
    ]);
    let pil = compile(input).unwrap();
    let a_update = polyid(esub(
        nref("A"),
        eadd(
            eadd(
                emul(dref("reg_write_A"), dref("X")),
                emul(dref("instr_bump"), eadd(dref("A"), num(1))),
            ),
            emul(
                esub(num(1), eadd(dref("reg_write_A"), dref("instr_bump"))),
                dref("A"),
            ),
        ),
    ));
    let b_update = polyid(esub(
        nref("B"),
        eadd(
            eadd(
                emul(dref("reg_write_B"), dref("X")),
                emul(dref("instr_bump"), eadd(dref("B"), num(2))),
            ),
            emul(
                esub(num(1), eadd(dref("reg_write_B"), dref("instr_bump"))),
                dref("B"),
            ),
        ),
    ));
    assert!(pil.0.iter().any(|s| statement_eq(s, &a_update)), "{:?}", pil.0);
    assert!(pil.0.iter().any(|s| statement_eq(s, &b_update)));
}

/// Double negation of an assignment value changes nothing in the output:
/// the reducer's negation is an involution.
#[test]
fn double_negation_compiles_identically() {
    let plain = ASMFile(vec![
        reg("X", Some(RegisterFlag::IsDefaultAssignment)),
        reg("A", None),
        assign("A", num(5)),
    ]);
    let doubled = ASMFile(vec![
        reg("X", Some(RegisterFlag::IsDefaultAssignment)),
        reg("A", None),
        assign(
            "A",
            Expression::UnaryOperation(
                asm_pil::ast::UnaryOperator::Minus,
                Box::new(Expression::UnaryOperation(
                    asm_pil::ast::UnaryOperator::Minus,
                    Box::new(num(5)),
                )),
            ),
        ),
    ]);
    let a = compile(plain).unwrap();
    let b = compile(doubled).unwrap();
    assert!(statements_eq(&a.0, &b.0));
}

/// A constant assignment lands in the `{bus}_const` ROM column.
#[test]
fn constant_assignment_fills_const_column() {
    let input = ASMFile(vec![
        reg("X", Some(RegisterFlag::IsDefaultAssignment)),
        reg("A", None),
        assign("A", esub(num(7), num(3))),
    ]);
    let pil = compile(input).unwrap();
    // 7 and -3 are separate constant terms; the later one lands in the
    // column, as the reducer keeps both and the ROM stores the last.
    let expected = constdef("p_X_const", &[-3]);
    assert!(pil.0.iter().any(|s| statement_eq(s, &expected)), "{:?}", pil.0);
}

fn constant_columns(pil: &PILFile) -> Vec<(String, Vec<i128>)> {
    let mut out = Vec::new();
    for s in &pil.0 {
        if let Statement::PolynomialConstantDefinition(_, name, FunctionDefinition::Array(vals)) = s
        {
            let mut row = Vec::new();
            for v in vals {
                match v {
                    Expression::Number(n) => row.push(*n),
                    other => panic!("non-number ROM cell: {other:?}"),
                }
            }
            out.push((name.clone(), row));
        }
    }
    out
}

/// At most one instruction is live per program line, and the write flags are
/// boolean: the ROM's instruction-selection rows sum to 0 or 1.
#[test]
fn rom_rows_select_at_most_one_instruction() {
    let pil = compile(simple_sum_input()).unwrap();
    let columns = constant_columns(&pil);
    let n_rows = 9;
    for i in 0..n_rows {
        let mut sum: i128 = 0;
        for (name, vals) in &columns {
            assert_eq!(vals.len(), n_rows, "{name} has a wrong length");
            if name.starts_with("p_instr_") && !name.contains("_param_") {
                assert!(vals[i] == 0 || vals[i] == 1);
                sum += vals[i];
            }
            if name.starts_with("p_reg_write_") {
                assert!(vals[i] == 0 || vals[i] == 1);
            }
        }
        assert!(sum <= 1, "row {i} selects {sum} instructions");
    }
}

/// Each stored literal argument is the index of the labelled line it names.
#[test]
fn label_arguments_become_line_indices() {
    let pil = compile(simple_sum_input()).unwrap();
    let columns = constant_columns(&pil);
    // "start" is line 1 and "end" is line 6 of the program.
    let jmpz_l = columns.iter().find(|(n, _)| n == "p_instr_jmpz_param_l").unwrap();
    assert_eq!(jmpz_l.1[2], 6);
    let jmp_l = columns.iter().find(|(n, _)| n == "p_instr_jmp_param_l").unwrap();
    assert_eq!(jmp_l.1[5], 1);
}

/// Every lookup column appears exactly once among the declarations: one
/// witness declaration per left name, one fixed definition per right name.
#[test]
fn lookup_columns_are_declared_exactly_once() {
    let pil = compile(simple_sum_input()).unwrap();
    let lookup = pil
        .0
        .iter()
        .find_map(|s| {
            if let Statement::PlookupIdentity(_, left, right) = s {
                Some((left, right))
            } else {
                None
            }
        })
        .unwrap();
    let ref_name = |e: &Expression| -> String {
        match e {
            Expression::PolynomialReference(r) => r.name.clone(),
            other => panic!("non-reference in lookup: {other:?}"),
        }
    };
    for e in &lookup.0.expressions {
        let name = ref_name(e);
        let count = pil
            .0
            .iter()
            .filter(|s| match s {
                Statement::PolynomialCommitDeclaration(_, names, _) => {
                    names.iter().any(|n| n.name == name)
                },
                _ => false,
            })
            .count();
        assert_eq!(count, 1, "witness {name} declared {count} times");
    }
    for e in &lookup.1.expressions {
        let name = ref_name(e);
        let count = pil
            .0
            .iter()
            .filter(|s| match s {
                Statement::PolynomialConstantDefinition(_, n, _) => *n == name,
                _ => false,
            })
            .count();
        assert_eq!(count, 1, "fixed column {name} defined {count} times");
    }
}
