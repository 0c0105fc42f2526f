use asm_pil::ast::{BinaryOperator, Expression, PolynomialReference, UnaryOperator};
use asm_pil::compiler::{ASMPILConverter, AffineExpressionComponent, Register};
use asm_pil::expression::{
    build_add, build_mul, build_number, build_sub, build_unary_expr, clone_expression,
    direct_reference, expr_eq, extract_update, next_reference, substitute,
};
use asm_pil::names::{
    bus_const_col, bus_free_value_col, bus_read_free_col, concat_str, fixed_col, instr_col,
    instr_param_col, read_col, reg_write_col, str_cmp, NameMap, NameOrder,
};

fn dref(n: &str) -> Expression {
    direct_reference(n)
}

fn num(v: i128) -> Expression {
    build_number(v)
}

#[test]
fn builders_build_the_expected_shapes() {
    let e = build_add(dref("a"), build_mul(dref("b"), num(2)));
    match &e {
        Expression::BinaryOperation(l, BinaryOperator::Add, r) => {
            assert!(expr_eq(l, &dref("a")));
            assert!(expr_eq(r, &build_mul(dref("b"), num(2))));
        },
        other => panic!("unexpected shape: {other:?}"),
    }
    match next_reference("pc") {
        Expression::PolynomialReference(r) => {
            assert_eq!(r.name, "pc");
            assert!(r.next);
            assert!(r.namespace.is_none());
            assert!(r.index.is_none());
        },
        other => panic!("unexpected shape: {other:?}"),
    }
}

#[test]
fn clone_is_structural() {
    let e = build_sub(
        build_unary_expr(UnaryOperator::Minus, dref("a")),
        Expression::Tuple(vec![num(1), Expression::Text("t".to_owned())]),
    );
    let c = clone_expression(&e);
    assert!(expr_eq(&e, &c));
}

#[test]
fn substitute_renames_only_references() {
    let mut map: NameMap<String> = NameMap::new();
    map.insert("l".to_owned(), "instr_jmp_param_l".to_owned());
    let e = build_sub(next_reference("pc"), dref("l"));
    let rewritten = substitute(&e, &map);
    let expected = build_sub(next_reference("pc"), dref("instr_jmp_param_l"));
    assert!(expr_eq(&rewritten, &expected));
    // Numbers and free inputs pass through unchanged.
    let f = Expression::FreeInput(Box::new(dref("l")));
    assert!(expr_eq(&substitute(&f, &map), &f));
}

#[test]
fn substitute_under_the_empty_map_is_identity() {
    let empty: NameMap<String> = NameMap::new();
    let cases = vec![
        dref("a"),
        num(42),
        build_add(dref("a"), build_mul(dref("b"), num(-1))),
        Expression::FunctionCall("f".to_owned(), vec![dref("x"), num(3)]),
        Expression::Tuple(vec![dref("x")]),
        Expression::PolynomialReference(PolynomialReference {
            namespace: Some("ns".to_owned()),
            name: "c".to_owned(),
            index: Some(Box::new(num(1))),
            next: true,
        }),
    ];
    for e in cases {
        let r = substitute(&e, &empty);
        assert!(expr_eq(&r, &e), "changed: {e:?} -> {r:?}");
    }
}

#[test]
fn extract_update_splits_next_references() {
    let (name, rhs) = extract_update(build_sub(next_reference("A"), dref("X")));
    assert_eq!(name.as_deref(), Some("A"));
    assert!(expr_eq(&rhs, &dref("X")));

    // A subtraction whose left side is a plain reference is returned whole.
    let e = build_sub(dref("A"), dref("X"));
    let (name, back) = extract_update(clone_expression(&e));
    assert!(name.is_none());
    assert!(expr_eq(&back, &e));

    // Anything that is not a subtraction is returned whole.
    let e = build_add(next_reference("A"), dref("X"));
    let (name, back) = extract_update(clone_expression(&e));
    assert!(name.is_none());
    assert!(expr_eq(&back, &e));
}

#[test]
fn column_names_are_derived() {
    assert_eq!(concat_str("ab", "cd"), "abcd");
    assert_eq!(reg_write_col("A"), "reg_write_A");
    assert_eq!(instr_col("jmp"), "instr_jmp");
    assert_eq!(instr_param_col("jmp", "l"), "instr_jmp_param_l");
    assert_eq!(bus_const_col("X"), "X_const");
    assert_eq!(bus_read_free_col("X"), "X_read_free");
    assert_eq!(bus_free_value_col("X"), "X_free_value");
    assert_eq!(read_col("X", "A"), "read_X_A");
    assert_eq!(fixed_col("reg_write_A"), "p_reg_write_A");
}

#[test]
fn name_order_is_lexicographic() {
    assert_eq!(str_cmp("A", "A"), NameOrder::Equal);
    assert_eq!(str_cmp("A", "CNT"), NameOrder::Less);
    assert_eq!(str_cmp("X", "instr_jmp"), NameOrder::Less);
    assert_eq!(str_cmp("pc", "X"), NameOrder::Greater);
    assert_eq!(str_cmp("ab", "abc"), NameOrder::Less);
    assert_eq!(str_cmp("abc", "ab"), NameOrder::Greater);
}

#[test]
fn name_map_sorts_and_replaces() {
    let mut m: NameMap<String> = NameMap::new();
    m.insert("b".to_owned(), "two".to_owned());
    m.insert("a".to_owned(), "one".to_owned());
    m.insert("c".to_owned(), "three".to_owned());
    m.insert("b".to_owned(), "replaced".to_owned());
    assert_eq!(m.len(), 3);
    assert_eq!(m.key_at(0), "a");
    assert_eq!(m.key_at(1), "b");
    assert_eq!(m.key_at(2), "c");
    assert_eq!(m.get("b").map(|s| s.as_str()), Some("replaced"));
    assert!(m.get("d").is_none());
}

#[test]
fn update_expression_cases() {
    // No conditioned update: the default alone.
    let r = Register {
        conditioned_updates: vec![],
        default_update: Some(dref("A")),
    };
    assert!(expr_eq(&r.update_expression().unwrap(), &dref("A")));

    // Neither: no update expression at all (the bus register).
    let r = Register { conditioned_updates: vec![], default_update: None };
    assert!(r.update_expression().is_none());

    // Conditions without a default: their weighted sum alone.
    let r = Register {
        conditioned_updates: vec![(dref("c1"), dref("v1")), (dref("c2"), dref("v2"))],
        default_update: None,
    };
    let expected = build_add(
        build_mul(dref("c1"), dref("v1")),
        build_mul(dref("c2"), dref("v2")),
    );
    assert!(expr_eq(&r.update_expression().unwrap(), &expected));

    // Conditions and a default: the weighted sum plus the guarded default.
    let r = Register {
        conditioned_updates: vec![(dref("c1"), dref("v1"))],
        default_update: Some(dref("A")),
    };
    let expected = build_add(
        build_mul(dref("c1"), dref("v1")),
        build_mul(build_sub(num(1), dref("c1")), dref("A")),
    );
    assert!(expr_eq(&r.update_expression().unwrap(), &expected));
}

fn value_eq(
    a: &[(i128, AffineExpressionComponent)],
    b: &[(i128, AffineExpressionComponent)],
) -> bool {
    a.len() == b.len() && a.iter().zip(b.iter()).all(|(x, y)| {
        x.0 == y.0 && match (&x.1, &y.1) {
            (AffineExpressionComponent::Constant, AffineExpressionComponent::Constant) => true,
            (
                AffineExpressionComponent::Register(r1),
                AffineExpressionComponent::Register(r2),
            ) => r1 == r2,
            (
                AffineExpressionComponent::FreeInput(e1),
                AffineExpressionComponent::FreeInput(e2),
            ) => expr_eq(e1, e2),
            _ => false,
        }
    })
}

#[test]
fn reducer_keeps_terms_in_order() {
    let conv = ASMPILConverter::new();
    // A + 2 - B reduces to [(1, A), (2, const), (-1, B)].
    let e = build_sub(build_add(dref("A"), num(2)), dref("B"));
    let v = conv.process_assignment_value(&e).unwrap();
    assert_eq!(v.len(), 3);
    assert!(value_eq(
        &v,
        &[
            (1, AffineExpressionComponent::Register("A".to_owned())),
            (2, AffineExpressionComponent::Constant),
            (-1, AffineExpressionComponent::Register("B".to_owned())),
        ],
    ));
    // Duplicate register terms are kept, not combined.
    let e = build_add(dref("A"), dref("A"));
    let v = conv.process_assignment_value(&e).unwrap();
    assert_eq!(v.len(), 2);
}

#[test]
fn reducer_negation_is_an_involution() {
    let conv = ASMPILConverter::new();
    let e = build_sub(build_add(dref("A"), num(2)), dref("B"));
    let doubled = build_unary_expr(
        UnaryOperator::Minus,
        build_unary_expr(UnaryOperator::Minus, clone_expression(&e)),
    );
    let v1 = conv.process_assignment_value(&e).unwrap();
    let v2 = conv.process_assignment_value(&doubled).unwrap();
    assert!(value_eq(&v1, &v2));
}
