//! The lowering pass itself: the converter state, the statement handlers, the
//! fixup phase (bus identity, register updates, ROM, plookup), and `compile`.
//!
//! Every handler's contract says that the new state is the spec-level
//! transition of the old one; `compile`'s contract says that the whole run
//! equals `spec_compile` of the input's view.

use vstd::prelude::*;
use crate::ast::{
    ASMFile, ASMStatement, ASMStatementView, BinaryOperator, CompileError, Expression,
    ExpressionView, FunctionDefinition, FunctionDefinitionView, InstructionParam,
    InstructionParamView, PILFile, PolynomialReference, RegisterFlag, SelectedExpressions,
    SelectedExpressionsView, Statement, StatementView, UnaryOperator, lemma_expression_view,
    lemma_poly_reference_view, lemma_view_exprs, view_asm_statements, view_exprs, view_params,
    view_statements, view_strings,
};
use crate::names::{map_get, map_insert, map_set, NameMap, NameOrder, name_cmp};
use crate::expression::{
    build_add, build_binary_expr, build_mul, build_number, build_sub, clone_expression,
    direct_reference, extract_update, next_reference, spec_extract_update, spec_substitute,
    substitute, sv_add, sv_direct, sv_mul, sv_next, sv_number, sv_sub, sv_witness,
    witness_column,
};

verus! {

broadcast use crate::ast::lemma_view_exprs;

// ---------------------------------------------------------------------------
// Converter data
// ---------------------------------------------------------------------------

/// One term of an assignment value: what a coefficient multiplies on the
/// assignment bus.
#[derive(Debug)]
pub enum AffineExpressionComponent {
    Register(String),
    Constant,
    FreeInput(Expression),
}

#[verifier::ext_equal]
pub enum AffineComponentView {
    Register(Seq<char>),
    Constant,
    FreeInput(ExpressionView),
}

impl View for AffineExpressionComponent {
    type V = AffineComponentView;

    open spec fn view(&self) -> AffineComponentView {
        match self {
            AffineExpressionComponent::Register(name) => AffineComponentView::Register(name@),
            AffineExpressionComponent::Constant => AffineComponentView::Constant,
            AffineExpressionComponent::FreeInput(e) => AffineComponentView::FreeInput(e@),
        }
    }
}

/// An assignment value: the ordered terms of `Σ coefᵢ · componentᵢ`.
pub open spec fn view_value(s: Seq<(i128, AffineExpressionComponent)>) -> Seq<(
    int,
    AffineComponentView,
)> {
    Seq::new(s.len(), |i: int| (s[i].0 as int, s[i].1@))
}

/// A declared register: its conditioned updates (condition, value) and its
/// default update.
#[derive(Debug)]
pub struct Register {
    pub conditioned_updates: Vec<(Expression, Expression)>,
    pub default_update: Option<Expression>,
}

#[verifier::ext_equal]
pub struct RegisterView {
    pub conditioned_updates: Seq<(ExpressionView, ExpressionView)>,
    pub default_update: Option<ExpressionView>,
}

impl View for Register {
    type V = RegisterView;

    open spec fn view(&self) -> RegisterView {
        RegisterView {
            conditioned_updates: Seq::new(
                self.conditioned_updates@.len(),
                |i: int|
                    (self.conditioned_updates@[i].0@, self.conditioned_updates@[i].1@),
            ),
            default_update: match &self.default_update {
                Option::Some(e) => Option::Some(e@),
                Option::None => Option::None,
            },
        }
    }
}

/// A declared instruction: its parameter list.
#[derive(Debug)]
pub struct Instruction {
    pub params: Vec<InstructionParam>,
}

#[verifier::ext_equal]
pub struct InstructionView {
    pub params: Seq<InstructionParamView>,
}

impl View for Instruction {
    type V = InstructionView;

    open spec fn view(&self) -> InstructionView {
        InstructionView { params: view_params(self.params@) }
    }
}

/// One program line: a label, an assignment, or an instruction invocation.
#[derive(Debug)]
pub struct CodeLine {
    pub write_reg: Option<String>,
    pub value: Vec<(i128, AffineExpressionComponent)>,
    pub label: Option<String>,
    pub instruction: Option<String>,
    pub instruction_literal_args: Vec<Option<String>>,
}

#[verifier::ext_equal]
pub struct CodeLineView {
    pub write_reg: Option<Seq<char>>,
    pub value: Seq<(int, AffineComponentView)>,
    pub label: Option<Seq<char>>,
    pub instruction: Option<Seq<char>>,
    pub instruction_literal_args: Seq<Option<Seq<char>>>,
}

pub open spec fn view_opt_string(o: Option<String>) -> Option<Seq<char>> {
    match o {
        Option::Some(s) => Option::Some(s@),
        Option::None => Option::None,
    }
}

pub open spec fn view_opt_strings(s: Seq<Option<String>>) -> Seq<Option<Seq<char>>> {
    Seq::new(s.len(), |i: int| view_opt_string(s[i]))
}

pub broadcast proof fn lemma_view_opt_strings_push(s: Seq<Option<String>>, x: Option<String>)
    ensures
        #[trigger] view_opt_strings(s.push(x)) == view_opt_strings(s).push(view_opt_string(x)),
{
    assert(view_opt_strings(s.push(x)) =~= view_opt_strings(s).push(view_opt_string(x)));
}

impl View for CodeLine {
    type V = CodeLineView;

    open spec fn view(&self) -> CodeLineView {
        CodeLineView {
            write_reg: view_opt_string(self.write_reg),
            value: view_value(self.value@),
            label: view_opt_string(self.label),
            instruction: view_opt_string(self.instruction),
            instruction_literal_args: view_opt_strings(self.instruction_literal_args@),
        }
    }
}

/// The converter: every table the pass accumulates while it ingests the
/// statement stream.
#[derive(Debug)]
pub struct ASMPILConverter {
    pub pil: Vec<Statement>,
    pub pc_name: Option<String>,
    pub default_assignment: Option<String>,
    pub registers: NameMap<Register>,
    pub instructions: NameMap<Instruction>,
    pub code_lines: Vec<CodeLine>,
    pub line_lookup: Vec<(String, String)>,
    pub program_constant_names: Vec<String>,
}

#[verifier::ext_equal]
pub struct ConverterView {
    pub pil: Seq<StatementView>,
    pub pc_name: Option<Seq<char>>,
    pub default_assignment: Option<Seq<char>>,
    pub registers: Seq<(Seq<char>, RegisterView)>,
    pub instructions: Seq<(Seq<char>, InstructionView)>,
    pub code_lines: Seq<CodeLineView>,
    pub line_lookup: Seq<(Seq<char>, Seq<char>)>,
    pub program_constant_names: Seq<Seq<char>>,
}

impl View for ASMPILConverter {
    type V = ConverterView;

    open spec fn view(&self) -> ConverterView {
        ConverterView {
            pil: view_statements(self.pil@),
            pc_name: view_opt_string(self.pc_name),
            default_assignment: view_opt_string(self.default_assignment),
            registers: self.registers@,
            instructions: self.instructions@,
            code_lines: Seq::new(self.code_lines@.len(), |i: int| self.code_lines@[i]@),
            line_lookup: Seq::new(
                self.line_lookup@.len(),
                |i: int| (self.line_lookup@[i].0@, self.line_lookup@[i].1@),
            ),
            program_constant_names: view_strings(self.program_constant_names@),
        }
    }
}

// ---------------------------------------------------------------------------
// The assignment-value reducer
// ---------------------------------------------------------------------------

/// Negation of an assignment value: every coefficient's sign flips; no term
/// is dropped and the order is kept.
pub open spec fn spec_negate_value(v: Seq<(int, AffineComponentView)>) -> Seq<(
    int,
    AffineComponentView,
)> {
    Seq::new(v.len(), |i: int| (-v[i].0, v[i].1))
}

/// Reduction of a right-hand side into assignment-bus terms. Numbers become
/// constant terms, bare register references become unit register terms, free
/// inputs become unit free-input terms; `+` concatenates, `-` concatenates
/// with the right side negated, unary `-` negates. Every other form is
/// refused.
pub open spec fn spec_reduce(e: ExpressionView) -> Result<
    Seq<(int, AffineComponentView)>,
    CompileError,
>
    decreases e,
{
    match e {
        ExpressionView::Number(n) => Result::Ok(seq![(n, AffineComponentView::Constant)]),
        ExpressionView::PolynomialReference(r) => {
            if r.namespace is None && r.index is None && !r.next {
                Result::Ok(seq![(1int, AffineComponentView::Register(r.name))])
            } else {
                Result::Err(CompileError::UnsupportedAssignmentExpression)
            }
        },
        ExpressionView::FreeInput(inner) => Result::Ok(
            seq![(1int, AffineComponentView::FreeInput(*inner))],
        ),
        ExpressionView::BinaryOperation(l, op, r) => {
            if op == BinaryOperator::Add {
                match (spec_reduce(*l), spec_reduce(*r)) {
                    (Result::Ok(lv), Result::Ok(rv)) => Result::Ok(lv + rv),
                    (Result::Err(e1), _) => Result::Err(e1),
                    (_, Result::Err(e2)) => Result::Err(e2),
                }
            } else if op == BinaryOperator::Sub {
                match (spec_reduce(*l), spec_reduce(*r)) {
                    (Result::Ok(lv), Result::Ok(rv)) => Result::Ok(lv + spec_negate_value(rv)),
                    (Result::Err(e1), _) => Result::Err(e1),
                    (_, Result::Err(e2)) => Result::Err(e2),
                }
            } else {
                Result::Err(CompileError::UnsupportedAssignmentExpression)
            }
        },
        ExpressionView::UnaryOperation(op, inner) => {
            if op == UnaryOperator::Minus {
                match spec_reduce(*inner) {
                    Result::Ok(v) => Result::Ok(spec_negate_value(v)),
                    Result::Err(e1) => Result::Err(e1),
                }
            } else {
                Result::Err(CompileError::UnsupportedAssignmentExpression)
            }
        },
        _ => Result::Err(CompileError::UnsupportedAssignmentExpression),
    }
}

/// The machine-limit precondition of the reducer: no number literal in a
/// reduced position is the one value whose negation does not fit.
pub open spec fn ok_for_reduce(e: ExpressionView) -> bool
    decreases e,
{
    match e {
        ExpressionView::Number(n) => i128::MIN < n <= i128::MAX,
        ExpressionView::BinaryOperation(l, op, r) => {
            (op == BinaryOperator::Add || op == BinaryOperator::Sub) ==> (ok_for_reduce(*l)
                && ok_for_reduce(*r))
        },
        ExpressionView::UnaryOperation(op, inner) => op == UnaryOperator::Minus ==> ok_for_reduce(
            *inner,
        ),
        _ => true,
    }
}

/// Every coefficient a reduction yields stays strictly above `i128::MIN`,
/// so flipping its sign stays in range.
#[verifier::rlimit(60)]
pub proof fn lemma_reduce_bounds(e: ExpressionView)
    requires
        ok_for_reduce(e),
        spec_reduce(e) is Ok,
    ensures
        forall|i: int| 0 <= i < spec_reduce(e)->Ok_0.len() ==> i128::MIN
            < #[trigger] spec_reduce(e)->Ok_0[i].0 <= i128::MAX,
    decreases e,
{
    match e {
        ExpressionView::BinaryOperation(l, op, r) => {
            if op == BinaryOperator::Add || op == BinaryOperator::Sub {
                lemma_reduce_bounds(*l);
                lemma_reduce_bounds(*r);
                let lv = spec_reduce(*l)->Ok_0;
                let rv = spec_reduce(*r)->Ok_0;
                let v = spec_reduce(e)->Ok_0;
                assert forall|i: int| 0 <= i < v.len() implies i128::MIN < #[trigger] v[i].0
                    <= i128::MAX by {
                    if i < lv.len() {
                        assert(v[i] == lv[i]);
                    } else {
                        if op == BinaryOperator::Add {
                            assert(v[i] == rv[i - lv.len()]);
                        } else {
                            assert(v[i] == spec_negate_value(rv)[i - lv.len()]);
                            assert(v[i].0 == -rv[i - lv.len()].0);
                        }
                    }
                }
            }
        },
        ExpressionView::UnaryOperation(op, inner) => {
            if op == UnaryOperator::Minus {
                lemma_reduce_bounds(*inner);
                let iv = spec_reduce(*inner)->Ok_0;
                let v = spec_reduce(e)->Ok_0;
                assert forall|i: int| 0 <= i < v.len() implies i128::MIN < #[trigger] v[i].0
                    <= i128::MAX by {
                    assert(v[i].0 == -iv[i].0);
                }
            }
        },
        _ => {},
    }
}

impl ASMPILConverter {
    /// Flips the sign of every coefficient.
    pub fn negate_assignment_value(&self, expr: Vec<(i128, AffineExpressionComponent)>) -> (r:
        Vec<(i128, AffineExpressionComponent)>)
        requires
            forall|i: int| 0 <= i < expr@.len() ==> #[trigger] expr@[i].0 > i128::MIN,
        ensures
            view_value(r@) == spec_negate_value(view_value(expr@)),
    {
        let ghost full = expr@;
        let mut rest = expr;
        let mut out: Vec<(i128, AffineExpressionComponent)> = Vec::new();
        let mut i: usize = 0;
        while rest.len() > 0
            invariant
                i <= full.len(),
                rest@ == full.skip(i as int),
                out@.len() == i as int,
                forall|j: int| 0 <= j < full.len() ==> #[trigger] full[j].0 > i128::MIN,
                forall|j: int| 0 <= j < i ==> #[trigger] out@[j].0 == -full[j].0 && out@[j].1
                    == full[j].1,
            decreases rest@.len(),
        {
            proof {
                assert(full.skip(i as int).drop_first() =~= full.skip(i as int + 1));
                assert(rest@[0] == full[i as int]);
            }
            let (coef, component) = rest.remove(0);
            out.push((-coef, component));
            i = out.len();
        }
        proof {
            assert(view_value(out@) =~= spec_negate_value(view_value(full)));
        }
        out
    }

    /// Concatenates two assignment values; nothing is combined or dropped.
    pub fn add_assignment_value(&self, left: Vec<(i128, AffineExpressionComponent)>, right: Vec<(
        i128,
        AffineExpressionComponent,
    )>) -> (r: Vec<(i128, AffineExpressionComponent)>)
        ensures
            view_value(r@) == view_value(left@) + view_value(right@),
    {
        let ghost lv = left@;
        let ghost rv = right@;
        let mut joined = left;
        let mut right = right;
        joined.append(&mut right);
        proof {
            assert(view_value(joined@) =~= view_value(lv) + view_value(rv));
        }
        joined
    }
}


// ---------------------------------------------------------------------------
// Views of the converter's sequences
// ---------------------------------------------------------------------------

pub open spec fn view_code_lines(s: Seq<CodeLine>) -> Seq<CodeLineView> {
    Seq::new(s.len(), |i: int| s[i]@)
}

pub broadcast proof fn lemma_view_code_lines_push(s: Seq<CodeLine>, x: CodeLine)
    ensures
        #[trigger] view_code_lines(s.push(x)) == view_code_lines(s).push(x@),
{
    assert(view_code_lines(s.push(x)) =~= view_code_lines(s).push(x@));
}

pub open spec fn view_lookup(s: Seq<(String, String)>) -> Seq<(Seq<char>, Seq<char>)> {
    Seq::new(s.len(), |i: int| (s[i].0@, s[i].1@))
}

pub broadcast proof fn lemma_view_lookup_push(s: Seq<(String, String)>, x: (String, String))
    ensures
        #[trigger] view_lookup(s.push(x)) == view_lookup(s).push((x.0@, x.1@)),
{
    assert(view_lookup(s.push(x)) =~= view_lookup(s).push((x.0@, x.1@)));
}

// ---------------------------------------------------------------------------
// Exec reducer
// ---------------------------------------------------------------------------

impl ASMPILConverter {
    /// Reduces a right-hand side into its assignment-bus terms.
    pub fn process_assignment_value(&self, value: &Expression) -> (r: Result<
        Vec<(i128, AffineExpressionComponent)>,
        CompileError,
    >)
        requires
            ok_for_reduce(value@),
        ensures
            match r {
                Result::Ok(v) => spec_reduce(value@) == Result::<
                    Seq<(int, AffineComponentView)>,
                    CompileError,
                >::Ok(view_value(v@)),
                Result::Err(e) => spec_reduce(value@) == Result::<
                    Seq<(int, AffineComponentView)>,
                    CompileError,
                >::Err(e),
            },
        decreases *value,
    {
        proof {
            lemma_expression_view(*value);
        }
        match value {
            Expression::Number(n) => {
                let mut v: Vec<(i128, AffineExpressionComponent)> = Vec::new();
                v.push((*n, AffineExpressionComponent::Constant));
                proof {
                    assert(view_value(v@) =~= seq![(*n as int, AffineComponentView::Constant)]);
                }
                Result::Ok(v)
            },
            Expression::PolynomialReference(r) => {
                proof {
                    lemma_poly_reference_view(*r);
                }
                if r.namespace.is_none() && r.index.is_none() && !r.next {
                    let mut v: Vec<(i128, AffineExpressionComponent)> = Vec::new();
                    v.push((1i128, AffineExpressionComponent::Register(r.name.clone())));
                    proof {
                        assert(view_value(v@) =~= seq![
                            (1int, AffineComponentView::Register(r.name@)),
                        ]);
                    }
                    Result::Ok(v)
                } else {
                    Result::Err(CompileError::UnsupportedAssignmentExpression)
                }
            },
            Expression::FreeInput(inner) => {
                let mut v: Vec<(i128, AffineExpressionComponent)> = Vec::new();
                v.push((1i128, AffineExpressionComponent::FreeInput(clone_expression(inner))));
                proof {
                    assert(view_value(v@) =~= seq![
                        (1int, AffineComponentView::FreeInput(inner@)),
                    ]);
                }
                Result::Ok(v)
            },
            Expression::BinaryOperation(l, op, r) => {
                match op {
                    BinaryOperator::Add => {
                        match self.process_assignment_value(l) {
                            Result::Err(e) => Result::Err(e),
                            Result::Ok(lv) => {
                                match self.process_assignment_value(r) {
                                    Result::Err(e) => Result::Err(e),
                                    Result::Ok(rv) => {
                                        let joined = self.add_assignment_value(lv, rv);
                                        Result::Ok(joined)
                                    },
                                }
                            },
                        }
                    },
                    BinaryOperator::Sub => {
                        match self.process_assignment_value(l) {
                            Result::Err(e) => Result::Err(e),
                            Result::Ok(lv) => {
                                match self.process_assignment_value(r) {
                                    Result::Err(e) => Result::Err(e),
                                    Result::Ok(rv) => {
                                        proof {
                                            lemma_reduce_bounds(r@);
                                            assert forall|j: int| 0 <= j < rv@.len()
                                                implies #[trigger] rv@[j].0 > i128::MIN by {
                                                assert(view_value(rv@)[j].0 == rv@[j].0 as int);
                                            }
                                        }
                                        let negated = self.negate_assignment_value(rv);
                                        let joined = self.add_assignment_value(lv, negated);
                                        Result::Ok(joined)
                                    },
                                }
                            },
                        }
                    },
                    _ => Result::Err(CompileError::UnsupportedAssignmentExpression),
                }
            },
            Expression::UnaryOperation(op, inner) => {
                match op {
                    UnaryOperator::Minus => {
                        match self.process_assignment_value(inner) {
                            Result::Err(e) => Result::Err(e),
                            Result::Ok(v) => {
                                proof {
                                    lemma_reduce_bounds(inner@);
                                    assert forall|j: int| 0 <= j < v@.len()
                                        implies #[trigger] v@[j].0 > i128::MIN by {
                                        assert(view_value(v@)[j].0 == v@[j].0 as int);
                                    }
                                }
                                let negated = self.negate_assignment_value(v);
                                Result::Ok(negated)
                            },
                        }
                    },
                    UnaryOperator::Plus => Result::Err(
                        CompileError::UnsupportedAssignmentExpression,
                    ),
                }
            },
            _ => Result::Err(CompileError::UnsupportedAssignmentExpression),
        }
    }
}

// ---------------------------------------------------------------------------
// State transitions of the simple statements
// ---------------------------------------------------------------------------

/// The witness/fixed pair helper's effect: a witness declaration, a lookup
/// pair `(name, p_name)`, and the program constant `p_name`, in that order.
pub open spec fn st_pair(s: ConverterView, start: int, name: Seq<char>) -> ConverterView {
    ConverterView {
        pil: s.pil.push(sv_witness(start, name)),
        line_lookup: s.line_lookup.push((name, crate::names::sn_fixed(name))),
        program_constant_names: s.program_constant_names.push(crate::names::sn_fixed(name)),
        ..s
    }
}

/// A register declaration's effect, by flag.
pub open spec fn st_register_decl(
    s: ConverterView,
    start: int,
    name: Seq<char>,
    flag: Option<RegisterFlag>,
) -> Result<ConverterView, CompileError> {
    match flag {
        Option::Some(RegisterFlag::IsPC) => {
            if s.pc_name is Some {
                Result::Err(CompileError::DuplicateFlagRegister)
            } else {
                let reg = RegisterView {
                    conditioned_updates: Seq::empty(),
                    default_update: Option::Some(sv_add(sv_direct(name), sv_number(1))),
                };
                Result::Ok(
                    ConverterView {
                        pc_name: Option::Some(name),
                        line_lookup: s.line_lookup.push((name, "line"@)),
                        registers: map_insert(s.registers, name, reg),
                        pil: s.pil.push(sv_witness(start, name)),
                        ..s
                    },
                )
            }
        },
        Option::Some(RegisterFlag::IsDefaultAssignment) => {
            if s.default_assignment is Some {
                Result::Err(CompileError::DuplicateFlagRegister)
            } else {
                let reg = RegisterView {
                    conditioned_updates: Seq::empty(),
                    default_update: Option::None,
                };
                Result::Ok(
                    ConverterView {
                        default_assignment: Option::Some(name),
                        registers: map_insert(s.registers, name, reg),
                        pil: s.pil.push(sv_witness(start, name)),
                        ..s
                    },
                )
            }
        },
        Option::None => {
            let bus = s.default_assignment->0;
            let s1 = st_pair(s, start, crate::names::sn_reg_write(name));
            let reg = RegisterView {
                conditioned_updates: seq![
                    (sv_direct(crate::names::sn_reg_write(name)), sv_direct(bus)),
                ],
                default_update: Option::Some(sv_direct(name)),
            };
            Result::Ok(
                ConverterView {
                    registers: map_insert(s1.registers, name, reg),
                    pil: s1.pil.push(sv_witness(start, name)),
                    ..s1
                },
            )
        },
    }
}

/// A label pushes a code line holding only the label.
pub open spec fn st_label(s: ConverterView, name: Seq<char>) -> ConverterView {
    ConverterView {
        code_lines: s.code_lines.push(
            CodeLineView {
                write_reg: Option::None,
                value: Seq::empty(),
                label: Option::Some(name),
                instruction: Option::None,
                instruction_literal_args: Seq::empty(),
            },
        ),
        ..s
    }
}

/// Inline PIL is forwarded verbatim, keeping its position in the stream.
pub open spec fn st_inline_pil(s: ConverterView, stmts: Seq<StatementView>) -> ConverterView {
    ConverterView { pil: s.pil + stmts, ..s }
}

/// An assignment reduces its value and pushes a code line; more than one
/// write register is refused.
pub open spec fn st_assignment(
    s: ConverterView,
    write_regs: Seq<Seq<char>>,
    value: ExpressionView,
) -> Result<ConverterView, CompileError> {
    if write_regs.len() > 1 {
        Result::Err(CompileError::MultiWriteUnsupported)
    } else {
        match spec_reduce(value) {
            Result::Err(e) => Result::Err(e),
            Result::Ok(v) => Result::Ok(
                ConverterView {
                    code_lines: s.code_lines.push(
                        CodeLineView {
                            write_reg: if write_regs.len() == 1 {
                                Option::Some(write_regs[0])
                            } else {
                                Option::None
                            },
                            value: v,
                            label: Option::None,
                            instruction: Option::None,
                            instruction_literal_args: Seq::empty(),
                        },
                    ),
                    ..s
                },
            ),
        }
    }
}

// ---------------------------------------------------------------------------
// Exec handlers of the simple statements
// ---------------------------------------------------------------------------

impl ASMPILConverter {
    /// Declares the witness column `name`, pairs it with the fixed column
    /// `p_name` in the lookup, and records the fixed column as a program
    /// constant.
    pub fn create_witness_fixed_pair(&mut self, start: usize, name: &str)
        ensures
            final(self)@ == st_pair(old(self)@, start as int, name@),
    {
        broadcast use {crate::ast::lemma_view_statements_push, crate::ast::lemma_view_strings_push,
            lemma_view_lookup_push};

        let fixed_name = crate::names::fixed_col(name);
        let w = witness_column(start, name);
        self.pil.push(w);
        self.line_lookup.push((name.to_owned(), fixed_name.clone()));
        self.program_constant_names.push(fixed_name);
        proof {
            assert(self@ =~= st_pair(old(self)@, start as int, name@));
        }
    }

    /// Handles one register declaration, as its flag directs.
    pub fn handle_register_declaration(&mut self, start: usize, name: String, flag: Option<
        RegisterFlag,
    >) -> (r: Result<(), CompileError>)
        requires
            flag is None ==> old(self).default_assignment is Some,
        ensures
            match r {
                Result::Ok(_) => st_register_decl(old(self)@, start as int, name@, flag)
                    == Result::<ConverterView, CompileError>::Ok(final(self)@),
                Result::Err(e) => st_register_decl(old(self)@, start as int, name@, flag)
                    == Result::<ConverterView, CompileError>::Err(e),
            },
    {
        broadcast use {crate::ast::lemma_view_statements_push, crate::ast::lemma_view_strings_push,
            lemma_view_lookup_push};

        match flag {
            Option::Some(RegisterFlag::IsPC) => {
                if self.pc_name.is_some() {
                    return Result::Err(CompileError::DuplicateFlagRegister);
                }
                self.pc_name = Option::Some(name.clone());
                self.line_lookup.push((name.clone(), "line".to_owned()));
                let default_update = build_add(direct_reference(name.as_str()), build_number(1));
                let reg = Register {
                    conditioned_updates: Vec::new(),
                    default_update: Option::Some(default_update),
                };
                proof {
                    assert(reg@ =~~= RegisterView {
                        conditioned_updates: Seq::empty(),
                        default_update: Option::Some(sv_add(sv_direct(name@), sv_number(1))),
                    });
                }
                self.registers.insert(name.clone(), reg);
                let w = witness_column(start, name.as_str());
                self.pil.push(w);
                proof {
                    let exp = st_register_decl(old(self)@, start as int, name@, flag)->Ok_0;
                    assert(self@ =~~= exp);
                }
                Result::Ok(())
            },
            Option::Some(RegisterFlag::IsDefaultAssignment) => {
                if self.default_assignment.is_some() {
                    return Result::Err(CompileError::DuplicateFlagRegister);
                }
                self.default_assignment = Option::Some(name.clone());
                let reg = Register {
                    conditioned_updates: Vec::new(),
                    default_update: Option::None,
                };
                proof {
                    assert(reg@ =~~= RegisterView {
                        conditioned_updates: Seq::empty(),
                        default_update: Option::None,
                    });
                }
                self.registers.insert(name.clone(), reg);
                let w = witness_column(start, name.as_str());
                self.pil.push(w);
                proof {
                    let exp = st_register_decl(old(self)@, start as int, name@, flag)->Ok_0;
                    assert(self@ =~~= exp);
                }
                Result::Ok(())
            },
            Option::None => {
                let write_flag = crate::names::reg_write_col(name.as_str());
                self.create_witness_fixed_pair(start, write_flag.as_str());
                let bus = match &self.default_assignment {
                    Option::Some(b) => b.clone(),
                    Option::None => unreached(),
                };
                let mut conditioned_updates: Vec<(Expression, Expression)> = Vec::new();
                conditioned_updates.push(
                    (direct_reference(write_flag.as_str()), direct_reference(bus.as_str())),
                );
                let reg = Register {
                    conditioned_updates,
                    default_update: Option::Some(direct_reference(name.as_str())),
                };
                self.registers.insert(name.clone(), reg);
                let w = witness_column(start, name.as_str());
                self.pil.push(w);
                proof {
                    let exp = st_register_decl(old(self)@, start as int, name@, flag)->Ok_0;
                    assert(reg@ =~~= RegisterView {
                        conditioned_updates: seq![
                            (
                                sv_direct(crate::names::sn_reg_write(name@)),
                                sv_direct(old(self)@.default_assignment->0),
                            ),
                        ],
                        default_update: Option::Some(sv_direct(name@)),
                    });
                    assert(self@.registers =~~= exp.registers);
                    assert(self@ =~~= exp);
                }
                Result::Ok(())
            },
        }
    }

    /// Pushes a bare label line.
    pub fn handle_label(&mut self, name: String)
        ensures
            final(self)@ == st_label(old(self)@, name@),
    {
        broadcast use lemma_view_code_lines_push;

        let ghost nv = name@;
        let line = CodeLine {
            write_reg: Option::None,
            value: Vec::new(),
            label: Option::Some(name),
            instruction: Option::None,
            instruction_literal_args: Vec::new(),
        };
        proof {
            assert(line@ =~~= CodeLineView {
                write_reg: Option::None,
                value: Seq::empty(),
                label: Option::Some(nv),
                instruction: Option::None,
                instruction_literal_args: Seq::empty(),
            });
        }
        self.code_lines.push(line);
        proof {
            assert(self@ =~~= st_label(old(self)@, nv));
        }
    }

    /// Forwards inline PIL statements verbatim.
    pub fn handle_inline_pil(&mut self, statements: Vec<Statement>)
        ensures
            final(self)@ == st_inline_pil(old(self)@, view_statements(statements@)),
    {
        broadcast use crate::ast::lemma_view_statements_push;

        let ghost stv = view_statements(statements@);
        let mut rest = statements;
        let ghost full = rest@;
        let ghost mut i: int = 0;
        while rest.len() > 0
            invariant
                0 <= i <= full.len(),
                rest@ == full.skip(i),
                old(self)@.pil + view_statements(full.take(i)) == self@.pil,
                self@ =~= (ConverterView { pil: self@.pil, ..old(self)@ }),
            decreases rest@.len(),
        {
            proof {
                assert(full.skip(i).drop_first() =~= full.skip(i + 1));
                assert(rest@[0] == full[i]);
            }
            let stmt = rest.remove(0);
            let ghost pil_before = self.pil@;
            let ghost stmtg = stmt;
            self.pil.push(stmt);
            proof {
                crate::ast::lemma_view_statements_push(pil_before, stmtg);
                assert(view_statements(full.take(i + 1)) =~= view_statements(full.take(i)).push(
                    stmtg@,
                ));
                assert(view_statements(self.pil@) =~= old(self)@.pil + view_statements(
                    full.take(i + 1),
                ));
                i = i + 1;
            }
        }
        proof {
            assert(full.take(full.len() as int) =~= full);
            assert(self@ =~~= st_inline_pil(old(self)@, view_statements(full)));
        }
    }

    /// Handles an assignment line: at most one write register, value reduced
    /// onto the bus.
    pub fn handle_assignment(&mut self, _start: usize, write_regs: Vec<String>, _assign_reg:
        Option<String>, value: &Expression) -> (r: Result<(), CompileError>)
        requires
            ok_for_reduce(value@),
        ensures
            match r {
                Result::Ok(_) => st_assignment(old(self)@, view_strings(write_regs@), value@)
                    == Result::<ConverterView, CompileError>::Ok(final(self)@),
                Result::Err(e) => st_assignment(old(self)@, view_strings(write_regs@), value@)
                    == Result::<ConverterView, CompileError>::Err(e),
            },
    {
        broadcast use lemma_view_code_lines_push;

        if write_regs.len() > 1 {
            return Result::Err(CompileError::MultiWriteUnsupported);
        }
        let reduced = match self.process_assignment_value(value) {
            Result::Err(e) => {
                return Result::Err(e);
            },
            Result::Ok(v) => v,
        };
        let ghost wrv = view_strings(write_regs@);
        let mut write_regs = write_regs;
        let write_reg: Option<String> = if write_regs.len() == 1 {
            Option::Some(write_regs.remove(0))
        } else {
            Option::None
        };
        let line = CodeLine {
            write_reg,
            value: reduced,
            label: Option::None,
            instruction: Option::None,
            instruction_literal_args: Vec::new(),
        };
        self.code_lines.push(line);
        proof {
            assert(self@ =~~= st_assignment(old(self)@, wrv, value@)->Ok_0);
        }
        Result::Ok(())
    }
}


// ---------------------------------------------------------------------------
// Instruction declaration
// ---------------------------------------------------------------------------

/// Walks the declared parameters: each one without an assignment-bus role
/// gets a witness/fixed pair `instr_{name}_param_{pname}` and a substitution
/// of its name by that column.
pub open spec fn st_instr_params(
    s: ConverterView,
    start: int,
    iname: Seq<char>,
    params: Seq<InstructionParamView>,
    subs: Seq<(Seq<char>, Seq<char>)>,
) -> (ConverterView, Seq<(Seq<char>, Seq<char>)>)
    decreases params.len(),
{
    if params.len() == 0 {
        (s, subs)
    } else {
        let p = params[0];
        if p.assignment_reg_in is None && p.assignment_reg_out is None {
            let col = crate::names::sn_instr_param(iname, p.name);
            st_instr_params(
                st_pair(s, start, col),
                start,
                iname,
                params.drop_first(),
                map_insert(subs, p.name, col),
            )
        } else {
            st_instr_params(s, start, iname, params.drop_first(), subs)
        }
    }
}

/// Walks the body: an expression of the shape `R' - rhs` appends a
/// conditioned update `(instr_{name}, rhs)` to `R`; any other expression
/// becomes the identity `instr_{name} * expr = 0`.
pub open spec fn st_instr_body(
    s: ConverterView,
    colname: Seq<char>,
    subs: Seq<(Seq<char>, Seq<char>)>,
    body: Seq<ExpressionView>,
) -> Result<ConverterView, CompileError>
    decreases body.len(),
{
    if body.len() == 0 {
        Result::Ok(s)
    } else {
        let e = spec_substitute(body[0], subs);
        let pair = spec_extract_update(e);
        match pair.0 {
            Option::Some(var) => {
                match map_get(s.registers, var) {
                    Option::None => Result::Err(CompileError::UnknownRegister),
                    Option::Some(reg) => {
                        let reg2 = RegisterView {
                            conditioned_updates: reg.conditioned_updates.push(
                                (sv_direct(colname), pair.1),
                            ),
                            ..reg
                        };
                        st_instr_body(
                            ConverterView { registers: map_set(s.registers, var, reg2), ..s },
                            colname,
                            subs,
                            body.drop_first(),
                        )
                    },
                }
            },
            Option::None => st_instr_body(
                ConverterView {
                    pil: s.pil.push(
                        StatementView::PolynomialIdentity(0, sv_mul(sv_direct(colname), pair.1)),
                    ),
                    ..s
                },
                colname,
                subs,
                body.drop_first(),
            ),
        }
    }
}

/// An instruction declaration's whole effect: the `instr_{name}` pair, the
/// parameter columns and substitutions, the body, and the stored parameter
/// list.
pub open spec fn st_instruction_decl(
    s: ConverterView,
    start: int,
    name: Seq<char>,
    params: Seq<InstructionParamView>,
    body: Seq<ExpressionView>,
) -> Result<ConverterView, CompileError> {
    let col = crate::names::sn_instr(name);
    let s1 = st_pair(s, start, col);
    let folded = st_instr_params(s1, start, name, params, Seq::empty());
    match st_instr_body(folded.0, col, folded.1, body) {
        Result::Err(e) => Result::Err(e),
        Result::Ok(s3) => Result::Ok(
            ConverterView {
                instructions: map_insert(s3.instructions, name, InstructionView { params }),
                ..s3
            },
        ),
    }
}

impl ASMPILConverter {
    /// Handles one instruction declaration.
    pub fn handle_instruction_def(&mut self, start: usize, name: String, params: Vec<
        InstructionParam,
    >, body: Vec<Expression>) -> (r: Result<(), CompileError>)
        requires
            crate::names::map_sorted(old(self)@.registers),
        ensures
            match r {
                Result::Ok(_) => st_instruction_decl(
                    old(self)@,
                    start as int,
                    name@,
                    view_params(params@),
                    view_exprs(body@),
                ) == Result::<ConverterView, CompileError>::Ok(final(self)@),
                Result::Err(e) => st_instruction_decl(
                    old(self)@,
                    start as int,
                    name@,
                    view_params(params@),
                    view_exprs(body@),
                ) == Result::<ConverterView, CompileError>::Err(e),
            },
    {
        broadcast use crate::ast::lemma_view_statements_push;

        let ghost pv = view_params(params@);
        let ghost bv = view_exprs(body@);
        let col_name = crate::names::instr_col(name.as_str());
        self.create_witness_fixed_pair(start, col_name.as_str());
        let ghost s1 = self@;
        let mut substitutions: NameMap<String> = NameMap::new();
        proof {
            assert(pv.skip(0) =~= pv);
        }
        let mut i: usize = 0;
        while i < params.len()
            invariant
                i <= pv.len(),
                pv.len() == params@.len(),
                pv == view_params(params@),
                forall|j: int| 0 <= j < pv.len() ==> pv[j] == params@[j]@,
                self@.registers == s1.registers,
                st_instr_params(self@, start as int, name@, pv.skip(i as int), substitutions@)
                    == st_instr_params(s1, start as int, name@, pv, Seq::empty()),
            decreases pv.len() - i,
        {
            proof {
                assert(pv.skip(i as int).drop_first() =~= pv.skip(i as int + 1));
                assert(pv.skip(i as int)[0] == pv[i as int]);
            }
            let p = &params[i];
            if p.assignment_reg_in.is_none() && p.assignment_reg_out.is_none() {
                let param_col = crate::names::instr_param_col(name.as_str(), p.name.as_str());
                self.create_witness_fixed_pair(start, param_col.as_str());
                substitutions.insert(p.name.clone(), param_col);
            }
            i = i + 1;
        }
        proof {
            assert(pv.skip(pv.len() as int) =~= Seq::<InstructionParamView>::empty());
        }
        let ghost s2 = self@;
        let ghost subsv = substitutions@;
        proof {
            assert(bv.skip(0) =~= bv);
            assert(s2.registers == old(self)@.registers);
        }
        let mut i: usize = 0;
        while i < body.len()
            invariant
                i <= bv.len(),
                bv.len() == body@.len(),
                bv == view_exprs(body@),
                pv == view_params(params@),
                forall|j: int| 0 <= j < bv.len() ==> bv[j] == body@[j]@,
                substitutions@ == subsv,
                col_name@ == crate::names::sn_instr(name@),
                st_instr_params(
                    st_pair(old(self)@, start as int, crate::names::sn_instr(name@)),
                    start as int,
                    name@,
                    pv,
                    Seq::empty(),
                ) == (s2, subsv),
                crate::names::map_sorted(self@.registers),
                st_instr_body(self@, crate::names::sn_instr(name@), subsv, bv.skip(i as int))
                    == st_instr_body(s2, crate::names::sn_instr(name@), subsv, bv),
            decreases bv.len() - i,
        {
            proof {
                assert(bv.skip(i as int).drop_first() =~= bv.skip(i as int + 1));
                assert(bv.skip(i as int)[0] == bv[i as int]);
            }
            let expr = substitute(&body[i], &substitutions);
            let ghost s_loop = self@;
            let (var, rhs) = extract_update(expr);
            match var {
                Option::Some(var) => {
                    match self.registers.find(var.as_str()) {
                        Option::None => {
                            proof {
                                assert(spec_extract_update(
                                    spec_substitute(bv[i as int], subsv),
                                ).0 == Option::Some(var@));
                                assert(map_get(self@.registers, var@) is None);
                                assert(st_instr_body(
                                    self@,
                                    crate::names::sn_instr(name@),
                                    subsv,
                                    bv.skip(i as int),
                                ) == Result::<ConverterView, CompileError>::Err(
                                    CompileError::UnknownRegister,
                                ));
                                assert(st_instruction_decl(
                                    old(self)@,
                                    start as int,
                                    name@,
                                    pv,
                                    bv,
                                ) == Result::<ConverterView, CompileError>::Err(
                                    CompileError::UnknownRegister,
                                ));
                            }
                            return Result::Err(CompileError::UnknownRegister);
                        },
                        Option::Some(idx) => {
                            let (key, mut reg) = self.registers.take_at(idx);
                            let ghost regv = reg@;
                            reg.conditioned_updates.push(
                                (direct_reference(col_name.as_str()), rhs),
                            );
                            proof {
                                assert(reg@ =~~= RegisterView {
                                    conditioned_updates: regv.conditioned_updates.push(
                                        (
                                            sv_direct(crate::names::sn_instr(name@)),
                                            spec_extract_update(
                                                spec_substitute(bv[i as int], subsv),
                                            ).1,
                                        ),
                                    ),
                                    ..regv
                                });
                            }
                            self.registers.put_at(idx, key, reg);
                            proof {
                                lemma_sorted_set_at(
                                    s_loop.registers,
                                    idx as int,
                                    var@,
                                    self@.registers[idx as int].1,
                                );
                                assert(self@.registers =~~= map_set(
                                    s_loop.registers,
                                    var@,
                                    self@.registers[idx as int].1,
                                ));
                                assert(self@ =~~= (ConverterView {
                                    registers: map_set(
                                        s_loop.registers,
                                        var@,
                                        self@.registers[idx as int].1,
                                    ),
                                    ..s_loop
                                }));
                                lemma_map_set_sorted(s_loop.registers, var@, self@.registers[
                                    idx as int].1);
                            }
                        },
                    }
                },
                Option::None => {
                    let identity = Statement::PolynomialIdentity(
                        0,
                        build_mul(direct_reference(col_name.as_str()), rhs),
                    );
                    self.pil.push(identity);
                    proof {
                        assert(self@ =~~= (ConverterView {
                            pil: s_loop.pil.push(
                                StatementView::PolynomialIdentity(
                                    0,
                                    sv_mul(
                                        sv_direct(crate::names::sn_instr(name@)),
                                        spec_extract_update(
                                            spec_substitute(bv[i as int], subsv),
                                        ).1,
                                    ),
                                ),
                            ),
                            ..s_loop
                        }));
                    }
                },
            }
            i = i + 1;
        }
        proof {
            assert(bv.skip(bv.len() as int) =~= Seq::<ExpressionView>::empty());
        }
        let instr = Instruction { params };
        proof {
            assert(instr@ =~~= InstructionView { params: pv });
        }
        self.instructions.insert(name, instr);
        proof {
            assert(st_instruction_decl(old(self)@, start as int, name@, pv, bv)
                == Result::<ConverterView, CompileError>::Ok(self@)) by {
                assert(self@ =~~= st_instruction_decl(old(self)@, start as int, name@, pv, bv)
                    ->Ok_0);
            }
        }
        Result::Ok(())
    }
}

/// On a sorted association sequence, replacing the value at the position of
/// `key` is the same as replacing by key.
pub proof fn lemma_sorted_set_at<V>(m: Seq<(Seq<char>, V)>, i: int, key: Seq<char>, v: V)
    requires
        crate::names::map_sorted(m),
        0 <= i < m.len(),
        m[i].0 == key,
    ensures
        m.remove(i).insert(i, (key, v)) =~= map_set(m, key, v),
{
    crate::names::lemma_name_cmp_equal(key, key);
    assert forall|j: int| 0 <= j < m.len() && j != i implies name_cmp(key, #[trigger] m[j].0)
        != NameOrder::Equal by {
        crate::names::lemma_name_cmp_equal(key, m[j].0);
        if j < i {
            assert(name_cmp(m[j].0, m[i].0) == NameOrder::Less);
        } else {
            assert(name_cmp(m[i].0, m[j].0) == NameOrder::Less);
        }
        if key =~= m[j].0 {
            crate::names::lemma_name_cmp_equal(m[j].0, m[j].0);
            assert(name_cmp(m[j].0, m[j].0) == NameOrder::Equal);
            if j < i {
                assert(name_cmp(m[j].0, m[i].0) == NameOrder::Less);
                assert(m[i].0 == m[j].0);
                crate::names::lemma_name_cmp_equal(m[j].0, m[i].0);
            } else {
                assert(m[i].0 == m[j].0);
                crate::names::lemma_name_cmp_equal(m[i].0, m[j].0);
            }
        }
    }
}

/// `map_set` does not change the keys, so it keeps them sorted.
pub proof fn lemma_map_set_sorted<V>(m: Seq<(Seq<char>, V)>, key: Seq<char>, v: V)
    requires
        crate::names::map_sorted(m),
    ensures
        crate::names::map_sorted(map_set(m, key, v)),
{
    assert forall|i: int, j: int| 0 <= i < j < map_set(m, key, v).len() implies name_cmp(
        #[trigger] map_set(m, key, v)[i].0,
        #[trigger] map_set(m, key, v)[j].0,
    ) == NameOrder::Less by {
        assert(map_set(m, key, v)[i].0 == m[i].0);
        assert(map_set(m, key, v)[j].0 == m[j].0);
    }
}


// ---------------------------------------------------------------------------
// Instruction invocation
// ---------------------------------------------------------------------------

/// Walks the `(parameter, argument)` pairs of an invocation: a bus-role
/// parameter reduces its argument into the line's value (a second one is
/// refused), a `label` parameter stores the referenced name, and any other
/// parameter kind is refused.
pub open spec fn st_args(
    params: Seq<InstructionParamView>,
    args: Seq<ExpressionView>,
    value: Option<Seq<(int, AffineComponentView)>>,
    lits: Seq<Option<Seq<char>>>,
) -> Result<(Option<Seq<(int, AffineComponentView)>>, Seq<Option<Seq<char>>>), CompileError>
    decreases params.len(),
{
    if params.len() == 0 {
        Result::Ok((value, lits))
    } else {
        let p = params[0];
        let a = args[0];
        if p.assignment_reg_in is Some || p.assignment_reg_out is Some {
            if value is Some {
                Result::Err(CompileError::MultiBusParam)
            } else {
                match spec_reduce(a) {
                    Result::Err(e) => Result::Err(e),
                    Result::Ok(v) => st_args(
                        params.drop_first(),
                        args.drop_first(),
                        Option::Some(v),
                        lits.push(Option::None),
                    ),
                }
            }
        } else if p.param_type == Option::Some("label"@) {
            if a matches ExpressionView::PolynomialReference(r) && r.namespace is None
                && r.index is None && !r.next {
                st_args(
                    params.drop_first(),
                    args.drop_first(),
                    value,
                    lits.push(Option::Some(a->PolynomialReference_0.name)),
                )
            } else {
                Result::Err(CompileError::NonReferenceLabelArg)
            }
        } else {
            Result::Err(CompileError::UnsupportedParamKind)
        }
    }
}

/// An instruction invocation's effect: arity checked against the declaration,
/// the arguments walked, and a code line pushed.
pub open spec fn st_instruction(s: ConverterView, name: Seq<char>, args: Seq<ExpressionView>)
    -> Result<ConverterView, CompileError> {
    match map_get(s.instructions, name) {
        Option::None => Result::Err(CompileError::UnknownInstruction),
        Option::Some(instr) => {
            if instr.params.len() != args.len() {
                Result::Err(CompileError::Arity)
            } else {
                match st_args(instr.params, args, Option::None, Seq::empty()) {
                    Result::Err(e) => Result::Err(e),
                    Result::Ok(folded) => Result::Ok(
                        ConverterView {
                            code_lines: s.code_lines.push(
                                CodeLineView {
                                    write_reg: Option::None,
                                    value: match folded.0 {
                                        Option::Some(v) => v,
                                        Option::None => Seq::empty(),
                                    },
                                    label: Option::None,
                                    instruction: Option::Some(name),
                                    instruction_literal_args: folded.1,
                                },
                            ),
                            ..s
                        },
                    ),
                }
            }
        },
    }
}

impl ASMPILConverter {
    /// Handles one instruction invocation line.
    pub fn handle_instruction(&mut self, instr_name: String, args: &Vec<Expression>) -> (r:
        Result<(), CompileError>)
        requires
            forall|j: int| 0 <= j < args@.len() ==> ok_for_reduce(#[trigger] args@[j]@),
        ensures
            match r {
                Result::Ok(_) => st_instruction(old(self)@, instr_name@, view_exprs(args@))
                    == Result::<ConverterView, CompileError>::Ok(final(self)@),
                Result::Err(e) => st_instruction(old(self)@, instr_name@, view_exprs(args@))
                    == Result::<ConverterView, CompileError>::Err(e),
            },
    {
        broadcast use {lemma_view_code_lines_push, lemma_view_opt_strings_push};

        let ghost av = view_exprs(args@);
        let n_params: usize;
        match self.instructions.get(instr_name.as_str()) {
            Option::None => {
                return Result::Err(CompileError::UnknownInstruction);
            },
            Option::Some(instr) => {
                n_params = instr.params.len();
            },
        }
        let n_params = n_params;
        if n_params != args.len() {
            return Result::Err(CompileError::Arity);
        }
        let ghost instrv = map_get(self@.instructions, instr_name@)->0;
        let mut value: Option<Vec<(i128, AffineExpressionComponent)>> = Option::None;
        let mut lits: Vec<Option<String>> = Vec::new();
        let ghost s0 = self@;
        proof {
            assert(instrv.params.skip(0) =~= instrv.params);
            assert(av.skip(0) =~= av);
            assert(view_opt_strings(lits@) =~= Seq::<Option<Seq<char>>>::empty());
        }
        let mut i: usize = 0;
        while i < n_params
            invariant
                i <= n_params,
                self@ == s0,
                av == view_exprs(args@),
                map_get(s0.instructions, instr_name@) == Option::Some(instrv),
                n_params == instrv.params.len(),
                n_params == args@.len(),
                av.len() == args@.len(),
                forall|j: int| 0 <= j < av.len() ==> av[j] == args@[j]@,
                forall|j: int| 0 <= j < args@.len() ==> ok_for_reduce(#[trigger] args@[j]@),
                lits@.len() == i as int,
                st_args(
                    instrv.params.skip(i as int),
                    av.skip(i as int),
                    match value {
                        Option::Some(v) => Option::Some(view_value(v@)),
                        Option::None => Option::None,
                    },
                    view_opt_strings(lits@),
                ) == st_args(instrv.params, av, Option::None, Seq::empty()),
            decreases n_params - i,
        {
            let ghost value_v0 = match &value {
                Option::Some(v) => Option::Some(view_value(v@)),
                Option::None => Option::<Seq<(int, AffineComponentView)>>::None,
            };
            let ghost lits_v0 = view_opt_strings(lits@);
            proof {
                assert(instrv.params.skip(i as int).drop_first() =~= instrv.params.skip(
                    i as int + 1,
                ));
                assert(instrv.params.skip(i as int)[0] == instrv.params[i as int]);
                assert(av.skip(i as int).drop_first() =~= av.skip(i as int + 1));
                assert(av.skip(i as int)[0] == av[i as int]);
            }
            let p_is_bus: bool;
            let p_is_label: bool;
            match self.instructions.get(instr_name.as_str()) {
                Option::None => {
                    proof {
                        assert(false);
                    }
                    return Result::Err(CompileError::UnknownInstruction);
                },
                Option::Some(instr) => {
                    let p = &instr.params[i];
                    proof {
                        assert(p@ == instrv.params[i as int]);
                    }
                    p_is_bus = p.assignment_reg_in.is_some() || p.assignment_reg_out.is_some();
                    p_is_label = match &p.param_type {
                        Option::Some(t) => {
                            let o = crate::names::str_cmp(t.as_str(), "label");
                            proof {
                                crate::names::lemma_name_cmp_equal(t@, "label"@);
                            }
                            match o {
                                NameOrder::Equal => true,
                                _ => false,
                            }
                        },
                        Option::None => false,
                    };
                },
            }
            if p_is_bus {
                if value.is_some() {
                    return Result::Err(CompileError::MultiBusParam);
                }
                let reduced = match self.process_assignment_value(&args[i]) {
                    Result::Err(e) => {
                        return Result::Err(e);
                    },
                    Result::Ok(v) => v,
                };
                value = Option::Some(reduced);
                lits.push(Option::None);
                proof {
                    let p = instrv.params[i as int];
                    assert(p.assignment_reg_in is Some || p.assignment_reg_out is Some);
                    assert(value_v0 is None);
                    assert(spec_reduce(av[i as int]) == Result::<
                        Seq<(int, AffineComponentView)>,
                        CompileError,
                    >::Ok(view_value(value->0@)));
                    assert(view_opt_strings(lits@) == lits_v0.push(Option::None));
                }
            } else if p_is_label {
                let lit: Option<String>;
                match &args[i] {
                    Expression::PolynomialReference(r) => {
                        proof {
                            lemma_expression_view(args@[i as int]);
                            lemma_poly_reference_view(*r);
                        }
                        if r.namespace.is_none() && r.index.is_none() && !r.next {
                            lit = Option::Some(r.name.clone());
                        } else {
                            return Result::Err(CompileError::NonReferenceLabelArg);
                        }
                    },
                    _ => {
                        proof {
                            lemma_expression_view(args@[i as int]);
                        }
                        return Result::Err(CompileError::NonReferenceLabelArg);
                    },
                }
                lits.push(lit);
                proof {
                    let p = instrv.params[i as int];
                    assert(p.assignment_reg_in is None && p.assignment_reg_out is None);
                    assert(p.param_type == Option::Some("label"@));
                    assert(av[i as int] matches ExpressionView::PolynomialReference(r)
                        && r.namespace is None && r.index is None && !r.next);
                    assert(view_opt_strings(lits@) == lits_v0.push(
                        Option::Some(av[i as int]->PolynomialReference_0.name),
                    ));
                }
            } else {
                return Result::Err(CompileError::UnsupportedParamKind);
            }
            proof {
                let value_v1 = match &value {
                    Option::Some(v) => Option::Some(view_value(v@)),
                    Option::None => Option::<Seq<(int, AffineComponentView)>>::None,
                };
                assert(st_args(instrv.params.skip(i as int), av.skip(i as int), value_v0, lits_v0)
                    == st_args(
                    instrv.params.skip(i as int + 1),
                    av.skip(i as int + 1),
                    value_v1,
                    view_opt_strings(lits@),
                ));
            }
            i = i + 1;
        }
        proof {
            assert(instrv.params.skip(n_params as int) =~= Seq::<InstructionParamView>::empty());
            assert(av.skip(n_params as int) =~= Seq::<ExpressionView>::empty());
        }
        let line_value = match value {
            Option::Some(v) => v,
            Option::None => Vec::new(),
        };
        let line = CodeLine {
            write_reg: Option::None,
            value: line_value,
            label: Option::None,
            instruction: Option::Some(instr_name),
            instruction_literal_args: lits,
        };
        self.code_lines.push(line);
        proof {
            assert(self@ =~~= st_instruction(old(self)@, instr_name@, av)->Ok_0);
        }
        Result::Ok(())
    }
}


// ---------------------------------------------------------------------------
// Register update expressions
// ---------------------------------------------------------------------------

/// The left-associated sum of one or more terms.
pub open spec fn fold_add_terms(terms: Seq<ExpressionView>) -> ExpressionView
    decreases terms.len(),
{
    if terms.len() <= 1 {
        terms[0]
    } else {
        sv_add(fold_add_terms(terms.drop_last()), terms.last())
    }
}

/// The products `condᵢ · valueᵢ` of a register's conditioned updates.
pub open spec fn update_products(r: RegisterView) -> Seq<ExpressionView> {
    Seq::new(r.conditioned_updates.len(), |i: int| sv_mul(
        r.conditioned_updates[i].0,
        r.conditioned_updates[i].1,
    ))
}

/// The conditions alone.
pub open spec fn update_conditions(r: RegisterView) -> Seq<ExpressionView> {
    Seq::new(r.conditioned_updates.len(), |i: int| r.conditioned_updates[i].0)
}

/// What the register's next-row value must equal: `Σ condᵢ·valueᵢ` plus, when
/// a default update exists, `(1 − Σ condᵢ) · default`; with no conditioned
/// update the default alone, and with neither, nothing.
pub open spec fn spec_update_expression(r: RegisterView) -> Option<ExpressionView> {
    if r.conditioned_updates.len() == 0 {
        r.default_update
    } else if r.default_update is None {
        Option::Some(fold_add_terms(update_products(r)))
    } else {
        Option::Some(
            sv_add(
                fold_add_terms(update_products(r)),
                sv_mul(
                    sv_sub(sv_number(1), fold_add_terms(update_conditions(r))),
                    r.default_update->0,
                ),
            ),
        )
    }
}

impl Register {
    /// The expression this register must equal in the next row, if any.
    pub fn update_expression(&self) -> (r: Option<Expression>)
        ensures
            match r {
                Option::Some(e) => spec_update_expression(self@) == Option::Some(e@),
                Option::None => spec_update_expression(self@) is None,
            },
    {
        let n = self.conditioned_updates.len();
        if n == 0 {
            return match &self.default_update {
                Option::Some(d) => Option::Some(clone_expression(d)),
                Option::None => Option::None,
            };
        }
        let ghost prods = update_products(self@);
        let first = &self.conditioned_updates[0];
        let mut updates = build_mul(clone_expression(&first.0), clone_expression(&first.1));
        let mut i: usize = 1;
        proof {
            assert(prods.take(1).len() == 1);
            assert(updates@ == fold_add_terms(prods.take(1)));
        }
        while i < n
            invariant
                1 <= i <= n,
                n == self.conditioned_updates@.len(),
                prods == update_products(self@),
                prods.len() == n,
                updates@ == fold_add_terms(prods.take(i as int)),
            decreases n - i,
        {
            let pair = &self.conditioned_updates[i];
            updates = build_add(
                updates,
                build_mul(clone_expression(&pair.0), clone_expression(&pair.1)),
            );
            proof {
                assert(prods.take(i as int + 1).drop_last() =~= prods.take(i as int));
                assert(prods.take(i as int + 1).last() == prods[i as int]);
            }
            i = i + 1;
        }
        proof {
            assert(prods.take(n as int) =~= prods);
        }
        match &self.default_update {
            Option::None => Option::Some(updates),
            Option::Some(def) => {
                let ghost conds = update_conditions(self@);
                let mut cond_sum = clone_expression(&self.conditioned_updates[0].0);
                let mut i: usize = 1;
                proof {
                    assert(conds.take(1).len() == 1);
                    assert(cond_sum@ == fold_add_terms(conds.take(1)));
                }
                while i < n
                    invariant
                        1 <= i <= n,
                        n == self.conditioned_updates@.len(),
                        conds == update_conditions(self@),
                        conds.len() == n,
                        cond_sum@ == fold_add_terms(conds.take(i as int)),
                    decreases n - i,
                {
                    cond_sum = build_add(
                        cond_sum,
                        clone_expression(&self.conditioned_updates[i].0),
                    );
                    proof {
                        assert(conds.take(i as int + 1).drop_last() =~= conds.take(i as int));
                        assert(conds.take(i as int + 1).last() == conds[i as int]);
                    }
                    i = i + 1;
                }
                proof {
                    assert(conds.take(n as int) =~= conds);
                }
                let default_condition = build_sub(build_number(1), cond_sum);
                Option::Some(
                    build_add(updates, build_mul(default_condition, clone_expression(def))),
                )
            },
        }
    }
}

// ---------------------------------------------------------------------------
// The assignment-bus identity
// ---------------------------------------------------------------------------

/// The declared register names other than the bus register, in table order.
pub open spec fn non_bus_keys(regs: Seq<(Seq<char>, RegisterView)>, bus: Seq<char>) -> Seq<
    Seq<char>,
>
    decreases regs.len(),
{
    if regs.len() == 0 {
        Seq::empty()
    } else {
        let rest = non_bus_keys(regs.drop_first(), bus);
        if regs[0].0 == bus {
            rest
        } else {
            seq![regs[0].0] + rest
        }
    }
}

/// Creates the `read_{bus}_{r}` pair of each register and chains the products
/// `read_{bus}_{r} · r` into a left-associated sum.
pub open spec fn st_bus_regs(
    s: ConverterView,
    bus: Seq<char>,
    regs: Seq<Seq<char>>,
    acc: Option<ExpressionView>,
) -> (ConverterView, Option<ExpressionView>)
    decreases regs.len(),
{
    if regs.len() == 0 {
        (s, acc)
    } else {
        let rc = crate::names::sn_read(bus, regs[0]);
        let term = sv_mul(sv_direct(rc), sv_direct(regs[0]));
        let acc2 = match acc {
            Option::None => Option::Some(term),
            Option::Some(a) => Option::Some(sv_add(a, term)),
        };
        st_bus_regs(st_pair(s, 0, rc), bus, regs.drop_first(), acc2)
    }
}

/// The read-pair fold touches only the PIL, the lookup and the program
/// constants.
pub proof fn lemma_bus_regs_same(
    s: ConverterView,
    bus: Seq<char>,
    regs: Seq<Seq<char>>,
    acc: Option<ExpressionView>,
)
    ensures
        st_bus_regs(s, bus, regs, acc).0.default_assignment == s.default_assignment,
        st_bus_regs(s, bus, regs, acc).0.pc_name == s.pc_name,
        st_bus_regs(s, bus, regs, acc).0.registers == s.registers,
        st_bus_regs(s, bus, regs, acc).0.instructions == s.instructions,
        st_bus_regs(s, bus, regs, acc).0.code_lines == s.code_lines,
    decreases regs.len(),
{
    if regs.len() > 0 {
        let rc = crate::names::sn_read(bus, regs[0]);
        let term = sv_mul(sv_direct(rc), sv_direct(regs[0]));
        let acc2 = match acc {
            Option::None => Option::Some(term),
            Option::Some(a) => Option::Some(sv_add(a, term)),
        };
        lemma_bus_regs_same(st_pair(s, 0, rc), bus, regs.drop_first(), acc2);
    }
}

/// The bus-constraint phase touches only the PIL, the lookup and the
/// program constants.
pub proof fn lemma_st_bus_same(s: ConverterView)
    ensures
        st_bus(s).default_assignment == s.default_assignment,
        st_bus(s).pc_name == s.pc_name,
        st_bus(s).registers == s.registers,
        st_bus(s).instructions == s.instructions,
        st_bus(s).code_lines == s.code_lines,
{
    let bus = s.default_assignment->0;
    let s1 = st_pair(s, 0, crate::names::sn_bus_const(bus));
    let s2 = st_pair(s1, 0, crate::names::sn_bus_read_free(bus));
    let s3 = ConverterView {
        pil: s2.pil.push(sv_witness(0, crate::names::sn_bus_free_value(bus))),
        ..s2
    };
    lemma_bus_regs_same(s3, bus, non_bus_keys(s3.registers, bus), Option::None);
}

/// The bus constraints: the `{bus}_const` and `{bus}_read_free` pairs, the
/// `{bus}_free_value` witness, one `read_{bus}_{r}` pair per other register,
/// and the identity `bus = Σ read_{bus}_{r}·r + {bus}_const +
/// {bus}_read_free·{bus}_free_value`.
pub open spec fn st_bus(s: ConverterView) -> ConverterView {
    let bus = s.default_assignment->0;
    let s1 = st_pair(s, 0, crate::names::sn_bus_const(bus));
    let s2 = st_pair(s1, 0, crate::names::sn_bus_read_free(bus));
    let s3 = ConverterView {
        pil: s2.pil.push(sv_witness(0, crate::names::sn_bus_free_value(bus))),
        ..s2
    };
    let folded = st_bus_regs(s3, bus, non_bus_keys(s3.registers, bus), Option::None);
    let with_const = match folded.1 {
        Option::None => sv_direct(crate::names::sn_bus_const(bus)),
        Option::Some(a) => sv_add(a, sv_direct(crate::names::sn_bus_const(bus))),
    };
    let rhs = sv_add(
        with_const,
        sv_mul(
            sv_direct(crate::names::sn_bus_read_free(bus)),
            sv_direct(crate::names::sn_bus_free_value(bus)),
        ),
    );
    ConverterView {
        pil: folded.0.pil.push(
            StatementView::PolynomialIdentity(0, sv_sub(sv_direct(bus), rhs)),
        ),
        ..folded.0
    }
}

impl ASMPILConverter {
    /// The name of the assignment-bus register.
    pub fn default_assignment_reg(&self) -> (r: &String)
        requires
            self.default_assignment is Some,
        ensures
            r@ == self@.default_assignment->0,
    {
        match &self.default_assignment {
            Option::Some(b) => b,
            Option::None => unreached(),
        }
    }

    /// Emits the assignment-bus columns and the bus identity.
    pub fn create_constraints_for_assignment_reg(&mut self)
        requires
            old(self).default_assignment is Some,
        ensures
            final(self)@ == st_bus(old(self)@),
    {
        broadcast use crate::ast::lemma_view_statements_push;

        let ghost bus_v = self@.default_assignment->0;
        let assign_const = crate::names::bus_const_col(self.default_assignment_reg().as_str());
        self.create_witness_fixed_pair(0, assign_const.as_str());
        let read_free = crate::names::bus_read_free_col(self.default_assignment_reg().as_str());
        self.create_witness_fixed_pair(0, read_free.as_str());
        let free_value = crate::names::bus_free_value_col(self.default_assignment_reg().as_str());
        let w = witness_column(0, free_value.as_str());
        self.pil.push(w);
        let ghost s3 = self@;
        let bus = self.default_assignment_reg().clone();
        let n = self.registers.len();
        let mut acc: Option<Expression> = Option::None;
        proof {
            assert(self@.registers.skip(0) =~= self@.registers);
        }
        let mut i: usize = 0;
        while i < n
            invariant
                i <= n,
                bus@ == bus_v,
                n == s3.registers.len(),
                self@.registers == s3.registers,
                st_bus_regs(
                    self@,
                    bus_v,
                    non_bus_keys(s3.registers.skip(i as int), bus_v),
                    match &acc {
                        Option::Some(a) => Option::Some(a@),
                        Option::None => Option::<ExpressionView>::None,
                    },
                ) == st_bus_regs(s3, bus_v, non_bus_keys(s3.registers, bus_v), Option::None),
            decreases n - i,
        {
            proof {
                assert(s3.registers.skip(i as int).drop_first() =~= s3.registers.skip(
                    i as int + 1,
                ));
                assert(s3.registers.skip(i as int)[0] == s3.registers[i as int]);
            }
            let key = self.registers.key_at(i).clone();
            let is_bus = match crate::names::str_cmp(key.as_str(), bus.as_str()) {
                NameOrder::Equal => true,
                _ => false,
            };
            proof {
                crate::names::lemma_name_cmp_equal(key@, bus_v);
            }
            proof {
                let rest = non_bus_keys(s3.registers.skip(i as int + 1), bus_v);
                if s3.registers[i as int].0 == bus_v {
                    assert(non_bus_keys(s3.registers.skip(i as int), bus_v) == rest);
                } else {
                    assert(non_bus_keys(s3.registers.skip(i as int), bus_v) == seq![
                        s3.registers[i as int].0,
                    ] + rest);
                    assert((seq![s3.registers[i as int].0] + rest)[0] == s3.registers[
                        i as int].0);
                    assert((seq![s3.registers[i as int].0] + rest).drop_first() =~= rest);
                }
            }
            if !is_bus {
                let read_coefficient = crate::names::read_col(bus.as_str(), key.as_str());
                self.create_witness_fixed_pair(0, read_coefficient.as_str());
                let term = build_mul(
                    direct_reference(read_coefficient.as_str()),
                    direct_reference(key.as_str()),
                );
                acc = match acc {
                    Option::None => Option::Some(term),
                    Option::Some(a) => Option::Some(build_add(a, term)),
                };
            }
            i = i + 1;
        }
        proof {
            assert(non_bus_keys(s3.registers.skip(n as int), bus_v) =~= Seq::<Seq<char>>::empty());
        }
        let with_const = match acc {
            Option::None => direct_reference(assign_const.as_str()),
            Option::Some(a) => build_add(a, direct_reference(assign_const.as_str())),
        };
        let rhs = build_add(
            with_const,
            build_mul(
                direct_reference(read_free.as_str()),
                direct_reference(free_value.as_str()),
            ),
        );
        let identity = Statement::PolynomialIdentity(
            0,
            build_sub(direct_reference(bus.as_str()), rhs),
        );
        self.pil.push(identity);
        proof {
            assert(self@ =~~= st_bus(old(self)@));
        }
    }
}


// ---------------------------------------------------------------------------
// Register-update identities
// ---------------------------------------------------------------------------

/// One `name' = update` identity per register with an update expression, in
/// table (name) order.
pub open spec fn update_identity_stmts(regs: Seq<(Seq<char>, RegisterView)>) -> Seq<
    StatementView,
>
    decreases regs.len(),
{
    if regs.len() == 0 {
        Seq::empty()
    } else {
        let rest = update_identity_stmts(regs.drop_first());
        match spec_update_expression(regs[0].1) {
            Option::Some(u) => seq![
                StatementView::PolynomialIdentity(0, sv_sub(sv_next(regs[0].0), u)),
            ] + rest,
            Option::None => rest,
        }
    }
}

pub open spec fn st_update_identities(s: ConverterView) -> ConverterView {
    ConverterView { pil: s.pil + update_identity_stmts(s.registers), ..s }
}

impl ASMPILConverter {
    /// Emits the register-next identities in register-table order.
    pub fn emit_update_identities(&mut self)
        ensures
            final(self)@ == st_update_identities(old(self)@),
    {
        broadcast use crate::ast::lemma_view_statements_push;

        let ghost regs = self@.registers;
        let n = self.registers.len();
        proof {
            assert(regs.skip(0) =~= regs);
        }
        let mut i: usize = 0;
        while i < n
            invariant
                i <= n,
                n == regs.len(),
                self@.registers == regs,
                self@ =~= (ConverterView { pil: self@.pil, ..old(self)@ }),
                self@.pil + update_identity_stmts(regs.skip(i as int)) == old(self)@.pil
                    + update_identity_stmts(regs),
            decreases n - i,
        {
            proof {
                assert(regs.skip(i as int).drop_first() =~= regs.skip(i as int + 1));
                assert(regs.skip(i as int)[0] == regs[i as int]);
            }
            let key = self.registers.key_at(i).clone();
            let upd = self.registers.val_at(i).update_expression();
            match upd {
                Option::Some(update) => {
                    let identity = Statement::PolynomialIdentity(
                        0,
                        build_sub(next_reference(key.as_str()), update),
                    );
                    self.pil.push(identity);
                    proof {
                        assert(self@.pil + update_identity_stmts(regs.skip(i as int + 1))
                            =~= old(self)@.pil + update_identity_stmts(regs));
                    }
                },
                Option::None => {},
            }
            i = i + 1;
        }
        proof {
            assert(update_identity_stmts(regs.skip(n as int)) =~= Seq::<StatementView>::empty());
            assert(self@.pil =~= old(self)@.pil + update_identity_stmts(regs));
            assert(self@ =~~= st_update_identities(old(self)@));
        }
    }
}

// ---------------------------------------------------------------------------
// The program ROM
// ---------------------------------------------------------------------------

/// The integer view of the constants table.
pub open spec fn view_consts(m: Seq<(Seq<char>, Seq<i128>)>) -> Seq<(Seq<char>, Seq<int>)> {
    Seq::new(
        m.len(),
        |i: int| (m[i].0, Seq::new(m[i].1.len(), |j: int| m[i].1[j] as int)),
    )
}

pub proof fn lemma_view_consts_get(m: Seq<(Seq<char>, Seq<i128>)>, key: Seq<char>)
    ensures
        map_get(view_consts(m), key) == match map_get(m, key) {
            Option::Some(v) => Option::Some(Seq::new(v.len(), |j: int| v[j] as int)),
            Option::None => Option::<Seq<int>>::None,
        },
    decreases m.len(),
{
    if m.len() > 0 {
        lemma_view_consts_get(m.drop_first(), key);
        assert(view_consts(m).drop_first() =~= view_consts(m.drop_first()));
    } else {
        assert(view_consts(m).len() == 0);
    }
}

pub proof fn lemma_view_consts_insert(m: Seq<(Seq<char>, Seq<i128>)>, key: Seq<char>, v: Seq<
    i128,
>)
    ensures
        view_consts(map_insert(m, key, v)) == map_insert(
            view_consts(m),
            key,
            Seq::new(v.len(), |j: int| v[j] as int),
        ),
    decreases m.len(),
{
    if m.len() > 0 {
        lemma_view_consts_insert(m.drop_first(), key, v);
        assert(view_consts(m).drop_first() =~= view_consts(m.drop_first()));
        match name_cmp(key, m[0].0) {
            NameOrder::Less => {
                assert(view_consts(map_insert(m, key, v)) =~= map_insert(
                    view_consts(m),
                    key,
                    Seq::new(v.len(), |j: int| v[j] as int),
                ));
            },
            NameOrder::Equal => {
                assert(view_consts(map_insert(m, key, v)) =~= map_insert(
                    view_consts(m),
                    key,
                    Seq::new(v.len(), |j: int| v[j] as int),
                ));
            },
            NameOrder::Greater => {
                assert(view_consts(map_insert(m, key, v)) =~= map_insert(
                    view_consts(m),
                    key,
                    Seq::new(v.len(), |j: int| v[j] as int),
                ));
            },
        }
    } else {
        assert(view_consts(map_insert(m, key, v)) =~= map_insert(
            view_consts(m),
            key,
            Seq::new(v.len(), |j: int| v[j] as int),
        ));
    }
}

pub proof fn lemma_view_consts_set(m: Seq<(Seq<char>, Seq<i128>)>, key: Seq<char>, v: Seq<i128>)
    ensures
        view_consts(map_set(m, key, v)) == map_set(
            view_consts(m),
            key,
            Seq::new(v.len(), |j: int| v[j] as int),
        ),
{
    assert(view_consts(map_set(m, key, v)) =~= map_set(
        view_consts(m),
        key,
        Seq::new(v.len(), |j: int| v[j] as int),
    ));
}

/// The empty ROM: one all-zero column per program-constant name, each as long
/// as the program.
pub open spec fn build_consts(
    acc: Seq<(Seq<char>, Seq<int>)>,
    names: Seq<Seq<char>>,
    n: nat,
) -> Seq<(Seq<char>, Seq<int>)>
    decreases names.len(),
{
    if names.len() == 0 {
        acc
    } else {
        build_consts(
            map_insert(acc, names[0], Seq::new(n, |j: int| 0int)),
            names.drop_first(),
            n,
        )
    }
}

/// The label table: each labelled line's index under the label's name, a
/// later duplicate replacing an earlier one.
pub open spec fn build_labels(
    acc: Seq<(Seq<char>, usize)>,
    lines: Seq<CodeLineView>,
    row: int,
) -> Seq<(Seq<char>, usize)>
    decreases lines.len(),
{
    if lines.len() == 0 {
        acc
    } else {
        let acc2 = match lines[0].label {
            Option::Some(l) => map_insert(acc, l, row as usize),
            Option::None => acc,
        };
        build_labels(acc2, lines.drop_first(), row + 1)
    }
}

/// Writes `val` at `row` of the column `key`; a column that no declaration
/// created is an unknown-register error.
pub open spec fn rom_fill(
    consts: Seq<(Seq<char>, Seq<int>)>,
    key: Seq<char>,
    row: int,
    val: int,
) -> Result<Seq<(Seq<char>, Seq<int>)>, CompileError> {
    match map_get(consts, key) {
        Option::None => Result::Err(CompileError::UnknownRegister),
        Option::Some(v) => Result::Ok(map_set(consts, key, v.update(row, val))),
    }
}

/// Fills one line's assignment-value terms into the ROM.
pub open spec fn rom_value_terms(
    consts: Seq<(Seq<char>, Seq<int>)>,
    bus: Seq<char>,
    value: Seq<(int, AffineComponentView)>,
    row: int,
) -> Result<Seq<(Seq<char>, Seq<int>)>, CompileError>
    decreases value.len(),
{
    if value.len() == 0 {
        Result::Ok(consts)
    } else {
        let filled = match value[0].1 {
            AffineComponentView::Register(r) => rom_fill(
                consts,
                crate::names::sn_fixed(crate::names::sn_read(bus, r)),
                row,
                value[0].0,
            ),
            AffineComponentView::Constant => rom_fill(
                consts,
                crate::names::sn_fixed(crate::names::sn_bus_const(bus)),
                row,
                value[0].0,
            ),
            AffineComponentView::FreeInput(_) => rom_fill(
                consts,
                crate::names::sn_fixed(crate::names::sn_bus_read_free(bus)),
                row,
                1,
            ),
        };
        match filled {
            Result::Err(e) => Result::Err(e),
            Result::Ok(c2) => rom_value_terms(c2, bus, value.drop_first(), row),
        }
    }
}

/// Fills one line's literal arguments: each stored label name becomes the
/// labelled line's index in the parameter's column.
pub open spec fn rom_args(
    consts: Seq<(Seq<char>, Seq<int>)>,
    iname: Seq<char>,
    params: Seq<InstructionParamView>,
    args: Seq<Option<Seq<char>>>,
    labels: Seq<(Seq<char>, usize)>,
    row: int,
) -> Result<Seq<(Seq<char>, Seq<int>)>, CompileError>
    decreases args.len(),
{
    if args.len() == 0 || params.len() == 0 {
        Result::Ok(consts)
    } else {
        let step = match args[0] {
            Option::Some(a) => {
                match map_get(labels, a) {
                    Option::None => Result::Err(CompileError::UnknownLabel),
                    Option::Some(pos) => rom_fill(
                        consts,
                        crate::names::sn_fixed(crate::names::sn_instr_param(iname, params[0].name)),
                        row,
                        pos as int,
                    ),
                }
            },
            Option::None => Result::Ok(consts),
        };
        match step {
            Result::Err(e) => Result::Err(e),
            Result::Ok(c2) => rom_args(c2, iname, params.drop_first(), args.drop_first(), labels, row),
        }
    }
}

/// Fills one whole code line into the ROM.
pub open spec fn rom_line(
    consts: Seq<(Seq<char>, Seq<int>)>,
    bus: Seq<char>,
    instrs: Seq<(Seq<char>, InstructionView)>,
    labels: Seq<(Seq<char>, usize)>,
    line: CodeLineView,
    row: int,
) -> Result<Seq<(Seq<char>, Seq<int>)>, CompileError> {
    let c1 = match line.write_reg {
        Option::Some(r) => rom_fill(
            consts,
            crate::names::sn_fixed(crate::names::sn_reg_write(r)),
            row,
            1,
        ),
        Option::None => Result::Ok(consts),
    };
    match c1 {
        Result::Err(e) => Result::Err(e),
        Result::Ok(c1) => {
            match rom_value_terms(c1, bus, line.value, row) {
                Result::Err(e) => Result::Err(e),
                Result::Ok(c2) => {
                    match line.instruction {
                        Option::None => Result::Ok(c2),
                        Option::Some(iname) => {
                            match rom_fill(
                                c2,
                                crate::names::sn_fixed(crate::names::sn_instr(iname)),
                                row,
                                1,
                            ) {
                                Result::Err(e) => Result::Err(e),
                                Result::Ok(c3) => {
                                    match map_get(instrs, iname) {
                                        Option::None => Result::Err(
                                            CompileError::UnknownInstruction,
                                        ),
                                        Option::Some(instr) => rom_args(
                                            c3,
                                            iname,
                                            instr.params,
                                            line.instruction_literal_args,
                                            labels,
                                            row,
                                        ),
                                    }
                                },
                            }
                        },
                    }
                },
            }
        },
    }
}

pub open spec fn rom_lines(
    consts: Seq<(Seq<char>, Seq<int>)>,
    bus: Seq<char>,
    instrs: Seq<(Seq<char>, InstructionView)>,
    labels: Seq<(Seq<char>, usize)>,
    lines: Seq<CodeLineView>,
    row: int,
) -> Result<Seq<(Seq<char>, Seq<int>)>, CompileError>
    decreases lines.len(),
{
    if lines.len() == 0 {
        Result::Ok(consts)
    } else {
        match rom_line(consts, bus, instrs, labels, lines[0], row) {
            Result::Err(e) => Result::Err(e),
            Result::Ok(c2) => rom_lines(c2, bus, instrs, labels, lines.drop_first(), row + 1),
        }
    }
}

/// The emitted fixed definitions: one array per constant, in name order.
pub open spec fn const_defs(consts: Seq<(Seq<char>, Seq<int>)>) -> Seq<StatementView> {
    Seq::new(
        consts.len(),
        |i: int| StatementView::PolynomialConstantDefinition(
            0,
            consts[i].0,
            FunctionDefinitionView::Array(
                Seq::new(consts[i].1.len(), |j: int| sv_number(consts[i].1[j])),
            ),
        ),
    )
}

/// The `line(i) { i }` mapping definition.
pub open spec fn sv_line_def() -> StatementView {
    StatementView::PolynomialConstantDefinition(
        0,
        "line"@,
        FunctionDefinitionView::Mapping(seq!["i"@], sv_direct("i"@)),
    )
}

/// The ROM phase: the `line` definition, then every program constant filled
/// from the code lines and emitted in name order.
pub open spec fn st_rom(s: ConverterView) -> Result<ConverterView, CompileError> {
    let bus = s.default_assignment->0;
    let pil1 = s.pil.push(sv_line_def());
    let consts0 = build_consts(Seq::empty(), s.program_constant_names, s.code_lines.len());
    let labels = build_labels(Seq::empty(), s.code_lines, 0);
    match rom_lines(consts0, bus, s.instructions, labels, s.code_lines, 0) {
        Result::Err(e) => Result::Err(e),
        Result::Ok(consts) => Result::Ok(ConverterView { pil: pil1 + const_defs(consts), ..s }),
    }
}


/// All columns have one row per code line.
pub open spec fn consts_rows(consts: Seq<(Seq<char>, Seq<int>)>, n: nat) -> bool {
    forall|i: int| 0 <= i < consts.len() ==> (#[trigger] consts[i].1).len() == n
}

/// Every entry of an inserted sequence is the new entry or an old entry.
pub proof fn lemma_insert_entries<V>(m: Seq<(Seq<char>, V)>, key: Seq<char>, value: V, i: int)
    requires
        0 <= i < map_insert(m, key, value).len(),
    ensures
        map_insert(m, key, value)[i] == (key, value) || exists|j: int|
            0 <= j < m.len() && map_insert(m, key, value)[i] == #[trigger] m[j],
    decreases m.len(),
{
    if m.len() > 0 {
        match name_cmp(key, m[0].0) {
            NameOrder::Less => {},
            NameOrder::Equal => {},
            NameOrder::Greater => {
                if i > 0 {
                    lemma_insert_entries(m.drop_first(), key, value, i - 1);
                }
            },
        }
    }
}

/// `map_set` keeps lengths when the new column is as long as the old ones.
pub proof fn lemma_fill_rows(consts: Seq<(Seq<char>, Seq<int>)>, key: Seq<char>, row: int, val: int, n: nat)
    requires
        consts_rows(consts, n),
        0 <= row < n,
        rom_fill(consts, key, row, val) is Ok,
    ensures
        consts_rows(rom_fill(consts, key, row, val)->Ok_0, n),
{
    let v = map_get(consts, key)->0;
    lemma_get_is_entry(consts, key);
    let j = choose|j: int|
        0 <= j < consts.len() && map_get(consts, key) == Option::Some(#[trigger] consts[j].1);
    assert(v.len() == n);
    let r = rom_fill(consts, key, row, val)->Ok_0;
    assert forall|i: int| 0 <= i < r.len() implies (#[trigger] r[i].1).len() == n by {
        if name_cmp(key, consts[i].0) == NameOrder::Equal {
            assert(r[i].1 == v.update(row, val));
        } else {
            assert(r[i].1 == consts[i].1);
        }
    }
}

/// A found value is one of the entries' values.
pub proof fn lemma_get_is_entry<V>(m: Seq<(Seq<char>, V)>, key: Seq<char>)
    requires
        map_get(m, key) is Some,
    ensures
        exists|j: int| 0 <= j < m.len() && map_get(m, key) == Option::Some(#[trigger] m[j].1),
    decreases m.len(),
{
    if m.len() > 0 {
        if name_cmp(key, m[0].0) == NameOrder::Equal {
            assert(map_get(m, key) == Option::Some(m[0].1));
        } else {
            lemma_get_is_entry(m.drop_first(), key);
            let j = choose|j: int|
                0 <= j < m.drop_first().len() && map_get(m.drop_first(), key) == Option::Some(
                    #[trigger] m.drop_first()[j].1,
                );
            assert(m.drop_first()[j] == m[j + 1]);
        }
    }
}

/// Writes `val` at `row` of the ROM column `key`.
fn rom_set(constants: &mut NameMap<Vec<i128>>, key: &str, row: usize, val: i128) -> (r: Result<
    (),
    CompileError,
>)
    requires
        crate::names::map_sorted(old(constants)@),
        forall|i: int| 0 <= i < view_consts(old(constants)@).len() ==> row < (
        #[trigger] view_consts(old(constants)@)[i].1).len(),
    ensures
        crate::names::map_sorted(final(constants)@),
        match r {
            Result::Ok(_) => rom_fill(view_consts(old(constants)@), key@, row as int, val as int)
                == Result::<Seq<(Seq<char>, Seq<int>)>, CompileError>::Ok(
                view_consts(final(constants)@),
            ),
            Result::Err(e) => {
                &&& rom_fill(view_consts(old(constants)@), key@, row as int, val as int)
                    == Result::<Seq<(Seq<char>, Seq<int>)>, CompileError>::Err(e)
                &&& final(constants)@ == old(constants)@
            },
        },
{
    proof {
        lemma_view_consts_get(old(constants)@, key@);
    }
    match constants.find(key) {
        Option::None => Result::Err(CompileError::UnknownRegister),
        Option::Some(idx) => {
            proof {
                assert(view_consts(constants@)[idx as int].1.len() == constants@[idx as int]
                    .1.len());
            }
            let (k, mut v) = constants.take_at(idx);
            let ghost v_old = v@;
            v[row] = val;
            constants.put_at(idx, k, v);
            proof {
                lemma_sorted_set_at(old(constants)@, idx as int, key@, v@);
                assert(constants@ =~= old(constants)@.remove(idx as int).insert(
                    idx as int,
                    (key@, v@),
                ));
                assert(constants@ == map_set(old(constants)@, key@, v@));
                lemma_map_set_sorted(old(constants)@, key@, v@);
                lemma_view_consts_set(old(constants)@, key@, v@);
                assert(Seq::new(v@.len(), |j: int| v@[j] as int) =~= map_get(
                    view_consts(old(constants)@),
                    key@,
                )->0.update(row as int, val as int));
            }
            Result::Ok(())
        },
    }
}



impl ASMPILConverter {
    /// The index of each labelled line under its label, a later duplicate
    /// replacing an earlier one.
    pub fn compute_label_positions(&self) -> (r: NameMap<usize>)
        ensures
            r@ == build_labels(Seq::empty(), self@.code_lines, 0),
            crate::names::map_sorted(r@),
    {
        let ghost lines = self@.code_lines;
        let mut positions: NameMap<usize> = NameMap::new();
        let n = self.code_lines.len();
        proof {
            assert(lines.skip(0) =~= lines);
        }
        let mut i: usize = 0;
        while i < n
            invariant
                i <= n,
                n == lines.len(),
                self@.code_lines == lines,
                crate::names::map_sorted(positions@),
                build_labels(positions@, lines.skip(i as int), i as int) == build_labels(
                    Seq::empty(),
                    lines,
                    0,
                ),
            decreases n - i,
        {
            proof {
                assert(lines.skip(i as int).drop_first() =~= lines.skip(i as int + 1));
                assert(lines.skip(i as int)[0] == lines[i as int]);
            }
            let line = &self.code_lines[i];
            match &line.label {
                Option::Some(l) => {
                    proof {
                        crate::names::lemma_map_insert_sorted(positions@, l@, i);
                    }
                    positions.insert(l.clone(), i);
                },
                Option::None => {},
            }
            i = i + 1;
        }
        proof {
            assert(lines.skip(n as int) =~= Seq::<CodeLineView>::empty());
        }
        positions
    }
}

/// Fills one code line into the ROM columns.
fn rom_fill_line(
    constants: &mut NameMap<Vec<i128>>,
    line: &CodeLine,
    row: usize,
    bus: &String,
    instructions: &NameMap<Instruction>,
    labels: &NameMap<usize>,
    rows: Ghost<nat>,
) -> (r: Result<(), CompileError>)
    requires
        crate::names::map_sorted(old(constants)@),
        consts_rows(view_consts(old(constants)@), rows@),
        row < rows@,
    ensures
        match r {
            Result::Ok(_) => {
                &&& rom_line(
                    view_consts(old(constants)@),
                    bus@,
                    instructions@,
                    labels@,
                    line@,
                    row as int,
                ) == Result::<Seq<(Seq<char>, Seq<int>)>, CompileError>::Ok(
                    view_consts(final(constants)@),
                )
                &&& crate::names::map_sorted(final(constants)@)
                &&& consts_rows(view_consts(final(constants)@), rows@)
            },
            Result::Err(e) => rom_line(
                view_consts(old(constants)@),
                bus@,
                instructions@,
                labels@,
                line@,
                row as int,
            ) == Result::<Seq<(Seq<char>, Seq<int>)>, CompileError>::Err(e),
        },
{
    match &line.write_reg {
        Option::Some(reg) => {
            let flag = crate::names::reg_write_col(reg.as_str());
            let key = crate::names::fixed_col(flag.as_str());
            let ghost c_before = view_consts(constants@);
            match rom_set(constants, key.as_str(), row, 1) {
                Result::Err(e) => {
                    return Result::Err(e);
                },
                Result::Ok(_) => {
                    proof {
                        lemma_fill_rows(
                            c_before,
                            crate::names::sn_fixed(crate::names::sn_reg_write(reg@)),
                            row as int,
                            1,
                            rows@,
                        );
                    }
                },
            }
        },
        Option::None => {},
    }
    let ghost c1 = view_consts(constants@);
    let ghost vv = line@.value;
    proof {
        assert(vv.skip(0) =~= vv);
    }
    let nv = line.value.len();
    let mut k: usize = 0;
    while k < nv
        invariant
            k <= nv,
            nv == line.value@.len(),
            vv == line@.value,
            vv.len() == nv,
            crate::names::map_sorted(constants@),
            consts_rows(view_consts(constants@), rows@),
            row < rows@,
            match line@.write_reg {
                Option::Some(r) => rom_fill(
                    view_consts(old(constants)@),
                    crate::names::sn_fixed(crate::names::sn_reg_write(r)),
                    row as int,
                    1,
                ) == Result::<Seq<(Seq<char>, Seq<int>)>, CompileError>::Ok(c1),
                Option::None => c1 == view_consts(old(constants)@),
            },
            rom_value_terms(view_consts(constants@), bus@, vv.skip(k as int), row as int)
                == rom_value_terms(c1, bus@, vv, row as int),
        decreases nv - k,
    {
        proof {
            assert(vv.skip(k as int).drop_first() =~= vv.skip(k as int + 1));
            assert(vv.skip(k as int)[0] == vv[k as int]);
            assert(vv[k as int] == (line.value@[k as int].0 as int, line.value@[k as int].1@));
        }
        let ghost c_before = view_consts(constants@);
        let term = &line.value[k];
        let key: String;
        let val: i128;
        match &term.1 {
            AffineExpressionComponent::Register(regname) => {
                let col = crate::names::read_col(bus.as_str(), regname.as_str());
                key = crate::names::fixed_col(col.as_str());
                val = term.0;
            },
            AffineExpressionComponent::Constant => {
                let col = crate::names::bus_const_col(bus.as_str());
                key = crate::names::fixed_col(col.as_str());
                val = term.0;
            },
            AffineExpressionComponent::FreeInput(_) => {
                let col = crate::names::bus_read_free_col(bus.as_str());
                key = crate::names::fixed_col(col.as_str());
                val = 1;
            },
        }
        match rom_set(constants, key.as_str(), row, val) {
            Result::Err(e) => {
                return Result::Err(e);
            },
            Result::Ok(_) => {
                proof {
                    lemma_fill_rows(c_before, key@, row as int, val as int, rows@);
                }
            },
        }
        k = k + 1;
    }
    proof {
        assert(vv.skip(nv as int) =~= Seq::<(int, AffineComponentView)>::empty());
    }
    match &line.instruction {
        Option::None => Result::Ok(()),
        Option::Some(iname) => {
            let ghost c2 = view_consts(constants@);
            let icol = crate::names::instr_col(iname.as_str());
            let key = crate::names::fixed_col(icol.as_str());
            let ghost c_before = view_consts(constants@);
            match rom_set(constants, key.as_str(), row, 1) {
                Result::Err(e) => {
                    return Result::Err(e);
                },
                Result::Ok(_) => {
                    proof {
                        lemma_fill_rows(
                            c_before,
                            crate::names::sn_fixed(crate::names::sn_instr(iname@)),
                            row as int,
                            1,
                            rows@,
                        );
                    }
                },
            }
            let ghost c3 = view_consts(constants@);
            match instructions.get(iname.as_str()) {
                Option::None => Result::Err(CompileError::UnknownInstruction),
                Option::Some(instr) => {
                    let ghost pv = map_get(instructions@, iname@)->0.params;
                    let ghost av = line@.instruction_literal_args;
                    proof {
                        assert(pv.skip(0) =~= pv);
                        assert(av.skip(0) =~= av);
                    }
                    let na = line.instruction_literal_args.len();
                    let np = instr.params.len();
                    let mut k: usize = 0;
                    while k < na && k < np
                        invariant
                            k <= na,
                            k <= np,
                            na == line.instruction_literal_args@.len(),
                            np == pv.len(),
                            av == line@.instruction_literal_args,
                            av.len() == na,
                            instr@.params == pv,
                            forall|j: int| 0 <= j < pv.len() ==> pv[j] == instr.params@[j]@,
                            crate::names::map_sorted(constants@),
                            consts_rows(view_consts(constants@), rows@),
                            row < rows@,
                            line@.instruction == Option::Some(iname@),
                            match line@.write_reg {
                                Option::Some(r) => rom_fill(
                                    view_consts(old(constants)@),
                                    crate::names::sn_fixed(crate::names::sn_reg_write(r)),
                                    row as int,
                                    1,
                                ) == Result::<Seq<(Seq<char>, Seq<int>)>, CompileError>::Ok(c1),
                                Option::None => c1 == view_consts(old(constants)@),
                            },
                            rom_value_terms(c1, bus@, line@.value, row as int) == Result::<
                                Seq<(Seq<char>, Seq<int>)>,
                                CompileError,
                            >::Ok(c2),
                            rom_fill(
                                c2,
                                crate::names::sn_fixed(crate::names::sn_instr(iname@)),
                                row as int,
                                1,
                            ) == Result::<Seq<(Seq<char>, Seq<int>)>, CompileError>::Ok(c3),
                            map_get(instructions@, iname@) == Option::Some(
                                InstructionView { params: pv },
                            ),
                            rom_args(
                                view_consts(constants@),
                                iname@,
                                pv.skip(k as int),
                                av.skip(k as int),
                                labels@,
                                row as int,
                            ) == rom_args(c3, iname@, pv, av, labels@, row as int),
                        decreases na - k,
                    {
                        proof {
                            assert(pv.skip(k as int).drop_first() =~= pv.skip(k as int + 1));
                            assert(pv.skip(k as int)[0] == pv[k as int]);
                            assert(av.skip(k as int).drop_first() =~= av.skip(k as int + 1));
                            assert(av.skip(k as int)[0] == av[k as int]);
                        }
                        match &line.instruction_literal_args[k] {
                            Option::Some(argname) => {
                                match labels.get(argname.as_str()) {
                                    Option::None => {
                                        return Result::Err(CompileError::UnknownLabel);
                                    },
                                    Option::Some(pos) => {
                                        let p = &instr.params[k];
                                        let pcol = crate::names::instr_param_col(
                                            iname.as_str(),
                                            p.name.as_str(),
                                        );
                                        let key = crate::names::fixed_col(pcol.as_str());
                                        let ghost c_before = view_consts(constants@);
                                        let posval: i128 = *pos as i128;
                                        match rom_set(constants, key.as_str(), row, posval) {
                                            Result::Err(e) => {
                                                return Result::Err(e);
                                            },
                                            Result::Ok(_) => {
                                                proof {
                                                    lemma_fill_rows(
                                                        c_before,
                                                        key@,
                                                        row as int,
                                                        posval as int,
                                                        rows@,
                                                    );
                                                }
                                            },
                                        }
                                    },
                                }
                            },
                            Option::None => {},
                        }
                        k = k + 1;
                    }
                    proof {
                        if na <= np {
                            assert(av.skip(k as int) =~= Seq::<Option<Seq<char>>>::empty());
                        } else {
                            assert(pv.skip(k as int) =~= Seq::<InstructionParamView>::empty());
                        }
                    }
                    Result::Ok(())
                },
            }
        },
    }
}


impl ASMPILConverter {
    /// Emits the `line` definition and every program constant, filled from
    /// the code lines, in column-name order.
    pub fn create_fixed_columns_for_program(&mut self) -> (r: Result<(), CompileError>)
        requires
            old(self).default_assignment is Some,
        ensures
            match r {
                Result::Ok(_) => st_rom(old(self)@) == Result::<ConverterView, CompileError>::Ok(
                    final(self)@,
                ),
                Result::Err(e) => st_rom(old(self)@) == Result::<
                    ConverterView,
                    CompileError,
                >::Err(e),
            },
    {
        broadcast use crate::ast::lemma_view_statements_push;

        let ghost bus_v = self@.default_assignment->0;
        let mut line_params: Vec<String> = Vec::new();
        line_params.push("i".to_owned());
        let line_def = Statement::PolynomialConstantDefinition(
            0,
            "line".to_owned(),
            FunctionDefinition::Mapping(line_params, direct_reference("i")),
        );
        proof {
            assert(view_strings(line_def->PolynomialConstantDefinition_2->Mapping_0@) =~= seq![
                "i"@,
            ]);
            assert(line_def@ =~~= sv_line_def());
        }
        self.pil.push(line_def);
        let ghost s_line = self@;
        let n = self.code_lines.len();
        let ghost names = self@.program_constant_names;
        let m = self.program_constant_names.len();
        let mut constants: NameMap<Vec<i128>> = NameMap::new();
        proof {
            assert(names.skip(0) =~= names);
            assert(view_consts(constants@) =~= Seq::<(Seq<char>, Seq<int>)>::empty());
        }
        let mut i: usize = 0;
        while i < m
            invariant
                i <= m,
                n == self@.code_lines.len(),
                m == names.len(),
                self@ == s_line,
                names == self@.program_constant_names,
                crate::names::map_sorted(constants@),
                consts_rows(view_consts(constants@), n as nat),
                build_consts(view_consts(constants@), names.skip(i as int), n as nat)
                    == build_consts(
                    Seq::empty(),
                    names,
                    n as nat,
                ),
            decreases m - i,
        {
            proof {
                assert(names.skip(i as int).drop_first() =~= names.skip(i as int + 1));
                assert(names.skip(i as int)[0] == names[i as int]);
            }
            let name = self.program_constant_names[i].clone();
            let mut zeros: Vec<i128> = Vec::new();
            let mut z: usize = 0;
            while z < n
                invariant
                    z <= n,
                    zeros@.len() == z as int,
                    forall|j: int| 0 <= j < z ==> zeros@[j] == 0i128,
                decreases n - z,
            {
                zeros.push(0);
                z = z + 1;
            }
            let ghost c_before = constants@;
            proof {
                crate::names::lemma_map_insert_sorted(constants@, name@, zeros@);
                lemma_view_consts_insert(constants@, name@, zeros@);
            }
            constants.insert(name, zeros);
            proof {
                assert(Seq::new(zeros@.len(), |j: int| zeros@[j] as int) =~= Seq::new(
                    n as nat,
                    |j: int| 0int,
                ));
                assert(consts_rows(view_consts(constants@), n as nat)) by {
                    assert forall|q: int| 0 <= q < view_consts(constants@).len() implies (
                    #[trigger] view_consts(constants@)[q].1).len() == n as nat by {
                        lemma_insert_entries(
                            view_consts(c_before),
                            name@,
                            Seq::new(n as nat, |j: int| 0int),
                            q,
                        );
                        assert(view_consts(constants@) == map_insert(
                            view_consts(c_before),
                            name@,
                            Seq::new(zeros@.len(), |j: int| zeros@[j] as int),
                        ));
                    }
                }
            }
            i = i + 1;
        }
        proof {
            assert(names.skip(m as int) =~= Seq::<Seq<char>>::empty());
        }
        let ghost consts0 = view_consts(constants@);
        let labels = self.compute_label_positions();
        let bus = self.default_assignment_reg().clone();
        let ghost lines = self@.code_lines;
        let ghost instrs = self@.instructions;
        proof {
            assert(lines.skip(0) =~= lines);
        }
        let mut i: usize = 0;
        while i < n
            invariant
                i <= n,
                n == lines.len(),
                self@ == s_line,
                bus@ == bus_v,
                lines == self@.code_lines,
                instrs == self@.instructions,
                labels@ == build_labels(Seq::empty(), lines, 0),
                s_line == (ConverterView {
                    pil: old(self)@.pil.push(sv_line_def()),
                    ..old(self)@
                }),
                old(self).default_assignment is Some,
                bus_v == old(self)@.default_assignment->0,
                n == old(self)@.code_lines.len(),
                consts0 == build_consts(
                    Seq::empty(),
                    old(self)@.program_constant_names,
                    old(self)@.code_lines.len(),
                ),
                crate::names::map_sorted(constants@),
                consts_rows(view_consts(constants@), n as nat),
                rom_lines(view_consts(constants@), bus_v, instrs, labels@, lines.skip(i as int),
                    i as int) == rom_lines(consts0, bus_v, instrs, labels@, lines, 0),
            decreases n - i,
        {
            proof {
                assert(lines.skip(i as int).drop_first() =~= lines.skip(i as int + 1));
                assert(lines.skip(i as int)[0] == lines[i as int]);
            }
            let line = &self.code_lines[i];
            match rom_fill_line(
                &mut constants,
                line,
                i,
                &bus,
                &self.instructions,
                &labels,
                Ghost(n as nat),
            ) {
                Result::Err(e) => {
                    return Result::Err(e);
                },
                Result::Ok(_) => {},
            }
            i = i + 1;
        }
        proof {
            assert(lines.skip(n as int) =~= Seq::<CodeLineView>::empty());
        }
        let ghost filled = view_consts(constants@);
        let ghost defs = const_defs(filled);
        let nc = constants.len();
        proof {
            assert(defs.take(0) =~= Seq::<StatementView>::empty());
            assert(self@.pil + defs.take(0) =~= self@.pil);
        }
        let ghost pil_before = self@.pil;
        let mut i: usize = 0;
        while i < nc
            invariant
                i <= nc,
                nc == filled.len(),
                filled == view_consts(constants@),
                defs == const_defs(filled),
                self@ =~= (ConverterView { pil: self@.pil, ..s_line }),
                self@.pil == pil_before + defs.take(i as int),
            decreases nc - i,
        {
            let key = constants.key_at(i).clone();
            let vals = constants.val_at(i);
            let nv = vals.len();
            let mut values: Vec<Expression> = Vec::new();
            let mut j: usize = 0;
            while j < nv
                invariant
                    j <= nv,
                    i < filled.len(),
                    filled == view_consts(constants@),
                    nv == constants@[i as int].1.len(),
                    values@.len() == j as int,
                    forall|q: int| 0 <= q < j ==> values@[q]@ == sv_number(
                        #[trigger] constants@[i as int].1[q] as int,
                    ),
                decreases nv - j,
            {
                let v = constants.val_at(i)[j];
                values.push(build_number(v));
                j = j + 1;
            }
            let def = Statement::PolynomialConstantDefinition(
                0,
                key,
                FunctionDefinition::Array(values),
            );
            proof {
                assert(view_exprs(def->PolynomialConstantDefinition_2->Array_0@) =~= Seq::new(
                    filled[i as int].1.len(),
                    |q: int| sv_number(filled[i as int].1[q]),
                ));
                assert(def@ =~~= defs[i as int]);
            }
            let ghost pb2 = self.pil@;
            let ghost defg = def;
            self.pil.push(def);
            proof {
                crate::ast::lemma_view_statements_push(pb2, defg);
                assert(defs.take(i as int + 1).drop_last() =~= defs.take(i as int));
                assert(defs.take(i as int + 1).last() == defs[i as int]);
                assert(self@.pil =~= pil_before + defs.take(i as int + 1));
            }
            i = i + 1;
        }
        proof {
            assert(defs.take(nc as int) =~= defs);
            assert(self@ =~~= st_rom(old(self)@)->Ok_0);
        }
        Result::Ok(())
    }
}

// ---------------------------------------------------------------------------
// The plookup, one statement step, and the whole pass
// ---------------------------------------------------------------------------

/// The trace-to-ROM plookup: the lookup pairs' left sides against their
/// right sides, in insertion order, with no selectors.
pub open spec fn st_plookup(s: ConverterView) -> ConverterView {
    ConverterView {
        pil: s.pil.push(
            StatementView::PlookupIdentity(
                0,
                SelectedExpressionsView {
                    selector: Option::None,
                    expressions: Seq::new(s.line_lookup.len(), |i: int| sv_direct(
                        s.line_lookup[i].0,
                    )),
                },
                SelectedExpressionsView {
                    selector: Option::None,
                    expressions: Seq::new(s.line_lookup.len(), |i: int| sv_direct(
                        s.line_lookup[i].1,
                    )),
                },
            ),
        ),
        ..s
    }
}

impl ASMPILConverter {
    /// Emits the plookup tying the execution trace to the program ROM.
    pub fn emit_plookup(&mut self)
        ensures
            final(self)@ == st_plookup(old(self)@),
    {
        broadcast use crate::ast::lemma_view_statements_push;

        let ghost lookup = self@.line_lookup;
        let n = self.line_lookup.len();
        let mut left: Vec<Expression> = Vec::new();
        let mut right: Vec<Expression> = Vec::new();
        let mut i: usize = 0;
        while i < n
            invariant
                i <= n,
                n == lookup.len(),
                self@.line_lookup == lookup,
                self@ =~= (ConverterView { pil: self@.pil, ..old(self)@ }),
                self@.pil == old(self)@.pil,
                left@.len() == i as int,
                right@.len() == i as int,
                forall|j: int| 0 <= j < i ==> left@[j]@ == sv_direct(#[trigger] lookup[j].0),
                forall|j: int| 0 <= j < i ==> right@[j]@ == sv_direct(#[trigger] lookup[j].1),
            decreases n - i,
        {
            let pair = &self.line_lookup[i];
            left.push(direct_reference(pair.0.as_str()));
            right.push(direct_reference(pair.1.as_str()));
            i = i + 1;
        }
        let identity = Statement::PlookupIdentity(
            0,
            SelectedExpressions { selector: Option::None, expressions: left },
            SelectedExpressions { selector: Option::None, expressions: right },
        );
        proof {
            assert(identity@ =~~= StatementView::PlookupIdentity(
                0,
                SelectedExpressionsView {
                    selector: Option::None,
                    expressions: Seq::new(lookup.len(), |j: int| sv_direct(lookup[j].0)),
                },
                SelectedExpressionsView {
                    selector: Option::None,
                    expressions: Seq::new(lookup.len(), |j: int| sv_direct(lookup[j].1)),
                },
            ));
        }
        self.pil.push(identity);
        proof {
            assert(self@ =~~= st_plookup(old(self)@));
        }
    }
}

/// The effect of one ASM statement on the converter.
pub open spec fn st_step(s: ConverterView, stmt: ASMStatementView) -> Result<
    ConverterView,
    CompileError,
> {
    match stmt {
        ASMStatementView::RegisterDeclaration(start, name, flag) => st_register_decl(
            s,
            start,
            name,
            flag,
        ),
        ASMStatementView::InstructionDeclaration(start, name, params, body) => st_instruction_decl(
            s,
            start,
            name,
            params,
            body,
        ),
        ASMStatementView::InlinePil(_start, stmts) => Result::Ok(st_inline_pil(s, stmts)),
        ASMStatementView::Assignment(_start, write_regs, _assign_reg, value) => st_assignment(
            s,
            write_regs,
            value,
        ),
        ASMStatementView::Instruction(_start, name, args) => st_instruction(s, name, args),
        ASMStatementView::Label(_start, name) => Result::Ok(st_label(s, name)),
    }
}

/// The fold of the statement stream over the empty converter.
pub open spec fn st_fold(s: ConverterView, stmts: Seq<ASMStatementView>) -> Result<
    ConverterView,
    CompileError,
>
    decreases stmts.len(),
{
    if stmts.len() == 0 {
        Result::Ok(s)
    } else {
        match st_fold(s, stmts.drop_last()) {
            Result::Err(e) => Result::Err(e),
            Result::Ok(s2) => st_step(s2, stmts.last()),
        }
    }
}

/// The fresh converter.
pub open spec fn spec_init() -> ConverterView {
    ConverterView {
        pil: Seq::empty(),
        pc_name: Option::None,
        default_assignment: Option::None,
        registers: Seq::empty(),
        instructions: Seq::empty(),
        code_lines: Seq::empty(),
        line_lookup: Seq::empty(),
        program_constant_names: Seq::empty(),
    }
}

/// The fixup phase that follows the statement stream: bus constraints,
/// register-next identities, ROM, and the plookup.
pub open spec fn spec_fixup(s: ConverterView) -> Result<Seq<StatementView>, CompileError> {
    let sb = st_bus(s);
    let su = st_update_identities(sb);
    match st_rom(su) {
        Result::Err(e) => Result::Err(e),
        Result::Ok(sr) => Result::Ok(st_plookup(sr).pil),
    }
}

/// The whole pass: every statement folded in order, then the fixup.
pub open spec fn spec_compile(stmts: Seq<ASMStatementView>) -> Result<
    Seq<StatementView>,
    CompileError,
> {
    match st_fold(spec_init(), stmts) {
        Result::Err(e) => Result::Err(e),
        Result::Ok(s) => spec_fixup(s),
    }
}


// ---------------------------------------------------------------------------
// The entry point
// ---------------------------------------------------------------------------

/// A register declaration carrying the `default_assignment` flag.
pub open spec fn is_bus_decl(stmt: ASMStatementView) -> bool {
    stmt matches ASMStatementView::RegisterDeclaration(_, _, flag) && flag == Option::Some(
        RegisterFlag::IsDefaultAssignment,
    )
}

/// A register declaration with no flag.
pub open spec fn is_plain_decl(stmt: ASMStatementView) -> bool {
    stmt matches ASMStatementView::RegisterDeclaration(_, _, flag) && flag is None
}

/// The values a statement hands to the assignment-bus reducer stay inside
/// the machine limits of the coefficients.
pub open spec fn stmt_reduce_ok(stmt: ASMStatementView) -> bool {
    match stmt {
        ASMStatementView::Assignment(_, _, _, value) => ok_for_reduce(value),
        ASMStatementView::Instruction(_, _, args) => forall|j: int|
            0 <= j < args.len() ==> ok_for_reduce(#[trigger] args[j]),
        _ => true,
    }
}

/// What `compile` asks of its input: an assignment-bus register is declared,
/// and before any plain register; and no reduced number literal is the one
/// value whose negation does not fit its machine type.
pub open spec fn input_ok(stmts: Seq<ASMStatementView>) -> bool {
    &&& exists|j: int| 0 <= j < stmts.len() && is_bus_decl(#[trigger] stmts[j])
    &&& forall|i: int|
        0 <= i < stmts.len() && is_plain_decl(#[trigger] stmts[i]) ==> exists|j: int|
            0 <= j < i && is_bus_decl(#[trigger] stmts[j])
    &&& forall|i: int| 0 <= i < stmts.len() ==> stmt_reduce_ok(#[trigger] stmts[i])
}

/// Whether the registers and instructions tables stay sorted, and whether
/// the bus register is recorded exactly when its declaration was seen.
pub open spec fn state_wf(s: ConverterView) -> bool {
    &&& crate::names::map_sorted(s.registers)
    &&& crate::names::map_sorted(s.instructions)
}

/// The body fold keeps the register table sorted and the rest of the state's
/// table fields unchanged in kind.
pub proof fn lemma_body_wf(
    s: ConverterView,
    colname: Seq<char>,
    subs: Seq<(Seq<char>, Seq<char>)>,
    body: Seq<ExpressionView>,
)
    requires
        state_wf(s),
        st_instr_body(s, colname, subs, body) is Ok,
    ensures
        state_wf(st_instr_body(s, colname, subs, body)->Ok_0),
        st_instr_body(s, colname, subs, body)->Ok_0.default_assignment == s.default_assignment,
    decreases body.len(),
{
    if body.len() > 0 {
        let e = spec_substitute(body[0], subs);
        let pair = spec_extract_update(e);
        match pair.0 {
            Option::Some(var) => {
                match map_get(s.registers, var) {
                    Option::None => {},
                    Option::Some(reg) => {
                        let reg2 = RegisterView {
                            conditioned_updates: reg.conditioned_updates.push(
                                (sv_direct(colname), pair.1),
                            ),
                            ..reg
                        };
                        let s2 = ConverterView {
                            registers: map_set(s.registers, var, reg2),
                            ..s
                        };
                        lemma_map_set_sorted(s.registers, var, reg2);
                        lemma_body_wf(s2, colname, subs, body.drop_first());
                    },
                }
            },
            Option::None => {
                let s2 = ConverterView {
                    pil: s.pil.push(
                        StatementView::PolynomialIdentity(0, sv_mul(sv_direct(colname), pair.1)),
                    ),
                    ..s
                };
                lemma_body_wf(s2, colname, subs, body.drop_first());
            },
        }
    }
}

/// The parameter fold leaves every table field untouched.
pub proof fn lemma_params_same(
    s: ConverterView,
    start: int,
    iname: Seq<char>,
    params: Seq<InstructionParamView>,
    subs: Seq<(Seq<char>, Seq<char>)>,
)
    ensures
        st_instr_params(s, start, iname, params, subs).0.registers == s.registers,
        st_instr_params(s, start, iname, params, subs).0.instructions == s.instructions,
        st_instr_params(s, start, iname, params, subs).0.default_assignment
            == s.default_assignment,
    decreases params.len(),
{
    if params.len() > 0 {
        let p = params[0];
        if p.assignment_reg_in is None && p.assignment_reg_out is None {
            let col = crate::names::sn_instr_param(iname, p.name);
            lemma_params_same(
                st_pair(s, start, col),
                start,
                iname,
                params.drop_first(),
                map_insert(subs, p.name, col),
            );
        } else {
            lemma_params_same(s, start, iname, params.drop_first(), subs);
        }
    }
}

/// One step keeps the state well formed, and records the bus register
/// exactly when the step declares it.
pub proof fn lemma_step_wf(s: ConverterView, stmt: ASMStatementView)
    requires
        state_wf(s),
        st_step(s, stmt) is Ok,
    ensures
        state_wf(st_step(s, stmt)->Ok_0),
        st_step(s, stmt)->Ok_0.default_assignment is Some <==> (s.default_assignment is Some
            || is_bus_decl(stmt)),
{
    match stmt {
        ASMStatementView::RegisterDeclaration(start, name, flag) => {
            match flag {
                Option::Some(RegisterFlag::IsPC) => {
                    crate::names::lemma_map_insert_sorted(
                        s.registers,
                        name,
                        st_step(s, stmt)->Ok_0.registers[0].1,
                    );
                    let reg = RegisterView {
                        conditioned_updates: Seq::empty(),
                        default_update: Option::Some(sv_add(sv_direct(name), sv_number(1))),
                    };
                    crate::names::lemma_map_insert_sorted(s.registers, name, reg);
                },
                Option::Some(RegisterFlag::IsDefaultAssignment) => {
                    let reg = RegisterView {
                        conditioned_updates: Seq::empty(),
                        default_update: Option::None,
                    };
                    crate::names::lemma_map_insert_sorted(s.registers, name, reg);
                },
                Option::None => {
                    let bus = s.default_assignment->0;
                    let reg = RegisterView {
                        conditioned_updates: seq![
                            (sv_direct(crate::names::sn_reg_write(name)), sv_direct(bus)),
                        ],
                        default_update: Option::Some(sv_direct(name)),
                    };
                    crate::names::lemma_map_insert_sorted(s.registers, name, reg);
                },
            }
        },
        ASMStatementView::InstructionDeclaration(start, name, params, body) => {
            let col = crate::names::sn_instr(name);
            let s1 = st_pair(s, start, col);
            let folded = st_instr_params(s1, start, name, params, Seq::empty());
            lemma_params_same(s1, start, name, params, Seq::empty());
            lemma_body_wf(folded.0, col, folded.1, body);
            let s3 = st_instr_body(folded.0, col, folded.1, body)->Ok_0;
            crate::names::lemma_map_insert_sorted(
                s3.instructions,
                name,
                InstructionView { params },
            );
        },
        _ => {},
    }
}

/// An error anywhere in the fold is the fold's result.
pub proof fn lemma_fold_prefix_err(s: ConverterView, stmts: Seq<ASMStatementView>, k: int)
    requires
        0 <= k <= stmts.len(),
        st_fold(s, stmts.take(k)) is Err,
    ensures
        st_fold(s, stmts) == st_fold(s, stmts.take(k)),
    decreases stmts.len(),
{
    if stmts.len() > k {
        assert(stmts.drop_last().take(k) =~= stmts.take(k));
        lemma_fold_prefix_err(s, stmts.drop_last(), k);
    } else {
        assert(stmts.take(k) =~= stmts);
    }
}

impl ASMPILConverter {
    /// A fresh converter with every table empty.
    pub fn new() -> (r: Self)
        ensures
            r@ == spec_init(),
    {
        let r = ASMPILConverter {
            pil: Vec::new(),
            pc_name: Option::None,
            default_assignment: Option::None,
            registers: NameMap::new(),
            instructions: NameMap::new(),
            code_lines: Vec::new(),
            line_lookup: Vec::new(),
            program_constant_names: Vec::new(),
        };
        proof {
            assert(r@ =~~= spec_init());
        }
        r
    }

    /// Runs the whole pass over a parsed ASM program.
    pub fn convert(self, input: ASMFile) -> (r: Result<PILFile, CompileError>)
        requires
            self@ == spec_init(),
            input_ok(input@),
        ensures
            match r {
                Result::Ok(pil) => spec_compile(input@) == Result::<
                    Seq<StatementView>,
                    CompileError,
                >::Ok(pil@),
                Result::Err(e) => spec_compile(input@) == Result::<
                    Seq<StatementView>,
                    CompileError,
                >::Err(e),
            },
    {
        let mut this = self;
        let ghost all = input@;
        let ASMFile(mut stmts) = input;
        proof {
            assert(all.take(0) =~= Seq::<ASMStatementView>::empty());
            assert(view_asm_statements(stmts@).skip(0) =~= view_asm_statements(stmts@));
        }
        let mut i: usize = 0;
        let n = stmts.len();
        proof {
            assert(all =~= view_asm_statements(stmts@));
            crate::ast::lemma_view_asm_statements(stmts@);
        }
        while i < n
            invariant
                all == input@,
                i <= n,
                n == all.len(),
                stmts@.len() == all.len(),
                all == view_asm_statements(stmts@),
                forall|j: int| 0 <= j < all.len() ==> all[j] == stmts@[j]@,
                input_ok(all),
                state_wf(this@),
                this@.default_assignment is Some <==> exists|j: int|
                    0 <= j < i && is_bus_decl(#[trigger] all[j]),
                st_fold(spec_init(), all.take(i as int)) == Result::<
                    ConverterView,
                    CompileError,
                >::Ok(this@),
            decreases n - i,
        {
            let ghost s_before = this@;
            proof {
                assert(all.take(i as int + 1).drop_last() =~= all.take(i as int));
                assert(all.take(i as int + 1).last() == all[i as int]);
                assert(stmt_reduce_ok(all[i as int]));
            }
            let stmt = &stmts[i];
            let step_result: Result<(), CompileError> = match stmt {
                ASMStatement::RegisterDeclaration(start, name, flag) => {
                    proof {
                        if all[i as int] matches ASMStatementView::RegisterDeclaration(
                            _,
                            _,
                            f,
                        ) && f is None {
                            assert(is_plain_decl(all[i as int]));
                            let j = choose|j: int| 0 <= j < i && is_bus_decl(#[trigger] all[j]);
                            assert(this@.default_assignment is Some);
                        }
                    }
                    this.handle_register_declaration(*start, name.clone(), *flag)
                },
                ASMStatement::InstructionDeclaration(start, name, params, body) => {
                    let params2 = clone_params(params);
                    let body2 = clone_expressions(body);
                    this.handle_instruction_def(*start, name.clone(), params2, body2)
                },
                ASMStatement::InlinePil(_start, statements) => {
                    let statements2 = clone_statements(statements);
                    this.handle_inline_pil(statements2);
                    Result::Ok(())
                },
                ASMStatement::Assignment(start, write_regs, assign_reg, value) => {
                    proof {
                        assert(all[i as int] matches ASMStatementView::Assignment(_, _, _, v)
                            && v == value@);
                        assert(ok_for_reduce(value@));
                    }
                    let regs2 = clone_strings(write_regs);
                    this.handle_assignment(*start, regs2, Option::None, value)
                },
                ASMStatement::Instruction(_start, name, args) => {
                    proof {
                        assert(all[i as int] matches ASMStatementView::Instruction(_, _, a)
                            && a == view_exprs(args@));
                        crate::ast::lemma_view_exprs(args@);
                        assert forall|j: int| 0 <= j < args@.len() implies ok_for_reduce(
                            #[trigger] args@[j]@,
                        ) by {
                            assert(view_exprs(args@)[j] == args@[j]@);
                        }
                    }
                    this.handle_instruction(name.clone(), args)
                },
                ASMStatement::Label(_start, name) => {
                    this.handle_label(name.clone());
                    Result::Ok(())
                },
            };
            match step_result {
                Result::Err(e) => {
                    proof {
                        assert(st_step(s_before, all[i as int]) == Result::<
                            ConverterView,
                            CompileError,
                        >::Err(e));
                        assert(st_fold(spec_init(), all.take(i as int + 1)) == Result::<
                            ConverterView,
                            CompileError,
                        >::Err(e));
                        lemma_fold_prefix_err(spec_init(), all, i as int + 1);
                    }
                    return Result::Err(e);
                },
                Result::Ok(_) => {
                    proof {
                        assert(st_step(s_before, all[i as int]) == Result::<
                            ConverterView,
                            CompileError,
                        >::Ok(this@));
                        lemma_step_wf(s_before, all[i as int]);
                    }
                },
            }
            i = i + 1;
        }
        proof {
            assert(all.take(n as int) =~= all);
            let j = choose|j: int| 0 <= j < all.len() && is_bus_decl(#[trigger] all[j]);
            assert(this@.default_assignment is Some);
            assert(this.default_assignment is Some);
        }
        this.create_constraints_for_assignment_reg();
        this.emit_update_identities();
        proof {
            lemma_st_bus_same(st_fold(spec_init(), all)->Ok_0);
            assert(this@.default_assignment is Some);
            assert(this.default_assignment is Some);
        }
        match this.create_fixed_columns_for_program() {
            Result::Err(e) => {
                return Result::Err(e);
            },
            Result::Ok(_) => {},
        }
        this.emit_plookup();
        let ASMPILConverter { pil, .. } = this;
        Result::Ok(PILFile(pil))
    }
}

fn clone_strings(v: &Vec<String>) -> (r: Vec<String>)
    ensures
        view_strings(r@) == view_strings(v@),
        r@.len() == v@.len(),
{
    let mut out: Vec<String> = Vec::new();
    let mut i: usize = 0;
    while i < v.len()
        invariant
            i <= v@.len(),
            out@.len() == i as int,
            forall|j: int| 0 <= j < i ==> out@[j]@ == #[trigger] v@[j]@,
        decreases v@.len() - i,
    {
        out.push(v[i].clone());
        i = i + 1;
    }
    proof {
        assert(view_strings(out@) =~= view_strings(v@));
    }
    out
}

fn clone_params(v: &Vec<InstructionParam>) -> (r: Vec<InstructionParam>)
    ensures
        view_params(r@) == view_params(v@),
{
    let mut out: Vec<InstructionParam> = Vec::new();
    let mut i: usize = 0;
    while i < v.len()
        invariant
            i <= v@.len(),
            out@.len() == i as int,
            forall|j: int| 0 <= j < i ==> out@[j]@ == #[trigger] v@[j]@,
        decreases v@.len() - i,
    {
        let p = &v[i];
        let cloned = InstructionParam {
            name: p.name.clone(),
            assignment_reg_in: match &p.assignment_reg_in {
                Option::Some(s) => Option::Some(s.clone()),
                Option::None => Option::None,
            },
            assignment_reg_out: match &p.assignment_reg_out {
                Option::Some(s) => Option::Some(s.clone()),
                Option::None => Option::None,
            },
            param_type: match &p.param_type {
                Option::Some(s) => Option::Some(s.clone()),
                Option::None => Option::None,
            },
        };
        proof {
            assert(cloned@ =~~= p@);
        }
        out.push(cloned);
        i = i + 1;
    }
    proof {
        assert(view_params(out@) =~= view_params(v@));
    }
    out
}

fn clone_expressions(v: &Vec<Expression>) -> (r: Vec<Expression>)
    ensures
        view_exprs(r@) == view_exprs(v@),
{
    let mut out: Vec<Expression> = Vec::new();
    let mut i: usize = 0;
    while i < v.len()
        invariant
            i <= v@.len(),
            out@.len() == i as int,
            forall|j: int| 0 <= j < i ==> out@[j]@ == #[trigger] v@[j]@,
        decreases v@.len() - i,
    {
        out.push(clone_expression(&v[i]));
        i = i + 1;
    }
    proof {
        assert(view_exprs(out@) =~= view_exprs(v@));
    }
    out
}

fn clone_statements(v: &Vec<Statement>) -> (r: Vec<Statement>)
    ensures
        view_statements(r@) == view_statements(v@),
{
    let mut out: Vec<Statement> = Vec::new();
    let mut i: usize = 0;
    while i < v.len()
        invariant
            i <= v@.len(),
            out@.len() == i as int,
            forall|j: int| 0 <= j < i ==> out@[j]@ == #[trigger] v@[j]@,
        decreases v@.len() - i,
    {
        out.push(clone_statement(&v[i]));
        i = i + 1;
    }
    proof {
        assert(view_statements(out@) =~= view_statements(v@));
    }
    out
}

/// A structural copy of one PIL statement.
pub fn clone_statement(s: &Statement) -> (r: Statement)
    ensures
        r@ == s@,
{
    match s {
        Statement::PolynomialCommitDeclaration(start, names, def) => {
            let mut names2: Vec<crate::ast::PolynomialName> = Vec::new();
            let mut i: usize = 0;
            while i < names.len()
                invariant
                    i <= names@.len(),
                    names2@.len() == i as int,
                    forall|j: int| 0 <= j < i ==> names2@[j]@ == #[trigger] names@[j]@,
                decreases names@.len() - i,
            {
                let nm = &names[i];
                let cloned = crate::ast::PolynomialName {
                    name: nm.name.clone(),
                    array_size: match &nm.array_size {
                        Option::Some(e) => Option::Some(clone_expression(e)),
                        Option::None => Option::None,
                    },
                };
                proof {
                    assert(cloned@ =~~= nm@);
                }
                names2.push(cloned);
                i = i + 1;
            }
            let def2 = match def {
                Option::Some(d) => Option::Some(clone_function_definition(d)),
                Option::None => Option::None,
            };
            let r = Statement::PolynomialCommitDeclaration(*start, names2, def2);
            proof {
                assert(crate::ast::view_poly_names(names2@) =~= crate::ast::view_poly_names(
                    names@,
                ));
                assert(r@ =~~= s@);
            }
            r
        },
        Statement::PolynomialConstantDefinition(start, name, def) => {
            Statement::PolynomialConstantDefinition(
                *start,
                name.clone(),
                clone_function_definition(def),
            )
        },
        Statement::PolynomialDefinition(start, name, e) => Statement::PolynomialDefinition(
            *start,
            name.clone(),
            clone_expression(e),
        ),
        Statement::PolynomialIdentity(start, e) => Statement::PolynomialIdentity(
            *start,
            clone_expression(e),
        ),
        Statement::PlookupIdentity(start, left, right) => {
            let r = Statement::PlookupIdentity(
                *start,
                clone_selected_expressions(left),
                clone_selected_expressions(right),
            );
            proof {
                assert(r@ =~~= s@);
            }
            r
        },
    }
}

fn clone_selected_expressions(s: &SelectedExpressions) -> (r: SelectedExpressions)
    ensures
        r@ == s@,
{
    let selector = match &s.selector {
        Option::Some(e) => Option::Some(clone_expression(e)),
        Option::None => Option::None,
    };
    let expressions = clone_expressions(&s.expressions);
    let r = SelectedExpressions { selector, expressions };
    proof {
        assert(r@ =~~= s@);
    }
    r
}

fn clone_function_definition(d: &FunctionDefinition) -> (r: FunctionDefinition)
    ensures
        r@ == d@,
{
    match d {
        FunctionDefinition::Mapping(params, body) => {
            let r = FunctionDefinition::Mapping(clone_strings(params), clone_expression(body));
            proof {
                assert(r@ =~~= d@);
            }
            r
        },
        FunctionDefinition::Array(values) => {
            let r = FunctionDefinition::Array(clone_expressions(values));
            proof {
                assert(r@ =~~= d@);
            }
            r
        },
    }
}

/// Lowers a parsed ASM program to its PIL constraint system: the committed
/// and fixed columns, the row-to-row update identities, and the plookup
/// connecting the execution trace to the program ROM.
///
/// The input must declare exactly one assignment-bus register before any
/// plain register uses it — a global invariant of well-formed programs — and
/// must not carry the one number literal whose negation does not fit; both
/// stand in `input_ok`.
pub fn compile(input: ASMFile) -> (r: Result<PILFile, CompileError>)
    requires
        input_ok(input@),
    ensures
        match r {
            Result::Ok(pil) => spec_compile(input@) == Result::<
                Seq<StatementView>,
                CompileError,
            >::Ok(pil@),
            Result::Err(e) => spec_compile(input@) == Result::<
                Seq<StatementView>,
                CompileError,
            >::Err(e),
        },
{
    ASMPILConverter::new().convert(input)
}

} // verus!
