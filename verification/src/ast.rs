//! The abstract syntax shared by the ASM input and the PIL output, together
//! with the mathematical views the contracts are stated over.
//!
//! Every executable type has a view type whose names are `Seq<char>` and whose
//! collections are `Seq`; the `View` impls translate structurally.

use vstd::prelude::*;

verus! {

// ---------------------------------------------------------------------------
// Shared atoms
// ---------------------------------------------------------------------------

#[derive(Debug, Clone, Copy, PartialEq, Eq, Structural)]
pub enum BinaryOperator {
    Add,
    Sub,
    Mul,
    Div,
    Mod,
    Pow,
    BinaryAnd,
    BinaryOr,
    ShiftLeft,
    ShiftRight,
}

#[derive(Debug, Clone, Copy, PartialEq, Eq, Structural)]
pub enum UnaryOperator {
    Plus,
    Minus,
}

#[derive(Debug, Clone, Copy, PartialEq, Eq, Structural)]
pub enum RegisterFlag {
    IsPC,
    IsDefaultAssignment,
}

/// The error surface of the lowering pass. Every error is fatal: no partial
/// output is returned beside one.
#[derive(Debug, Clone, Copy, PartialEq, Eq, Structural)]
pub enum CompileError {
    /// Two `pc` or two `default_assignment` register declarations.
    DuplicateFlagRegister,
    /// An expression form the assignment bus cannot carry.
    UnsupportedAssignmentExpression,
    /// An instruction parameter with no assignment role and no `label` tag.
    UnsupportedParamKind,
    /// A label-typed argument that is not a bare polynomial reference.
    NonReferenceLabelArg,
    /// Argument count differs from the declared parameter count.
    Arity,
    /// A label-typed argument names no label of the program.
    UnknownLabel,
    /// An assignment with more than one write register.
    MultiWriteUnsupported,
    /// Invocation of an undeclared instruction.
    UnknownInstruction,
    /// A register name that was not declared where one is needed.
    UnknownRegister,
    /// An instruction declared with more than one assignment-bus parameter.
    MultiBusParam,
}

// ---------------------------------------------------------------------------
// Expressions
// ---------------------------------------------------------------------------

/// A reference to a polynomial column, possibly shifted to the next row.
#[derive(Debug)]
pub struct PolynomialReference {
    pub namespace: Option<String>,
    pub name: String,
    pub index: Option<Box<Expression>>,
    pub next: bool,
}

/// The small arithmetic expression tree over column references and numbers.
#[derive(Debug)]
pub enum Expression {
    Constant(String),
    PublicReference(String),
    Number(i128),
    Text(String),
    Tuple(Vec<Expression>),
    FreeInput(Box<Expression>),
    PolynomialReference(PolynomialReference),
    BinaryOperation(Box<Expression>, BinaryOperator, Box<Expression>),
    UnaryOperation(UnaryOperator, Box<Expression>),
    FunctionCall(String, Vec<Expression>),
}

#[verifier::ext_equal]
pub struct PolynomialReferenceView {
    pub namespace: Option<Seq<char>>,
    pub name: Seq<char>,
    pub index: Option<Box<ExpressionView>>,
    pub next: bool,
}

#[verifier::ext_equal]
pub enum ExpressionView {
    Constant(Seq<char>),
    PublicReference(Seq<char>),
    Number(int),
    Text(Seq<char>),
    Tuple(Seq<ExpressionView>),
    FreeInput(Box<ExpressionView>),
    PolynomialReference(PolynomialReferenceView),
    BinaryOperation(Box<ExpressionView>, BinaryOperator, Box<ExpressionView>),
    UnaryOperation(UnaryOperator, Box<ExpressionView>),
    FunctionCall(Seq<char>, Seq<ExpressionView>),
}

impl PolynomialReference {
    pub open spec fn spec_view(&self) -> PolynomialReferenceView
        decreases self,
    {
        PolynomialReferenceView {
            namespace: match &self.namespace {
                Option::Some(ns) => Option::Some(ns@),
                Option::None => Option::None,
            },
            name: self.name@,
            index: match &self.index {
                Option::Some(e) => Option::Some(Box::new(e.spec_view())),
                Option::None => Option::None,
            },
            next: self.next,
        }
    }
}

impl View for PolynomialReference {
    type V = PolynomialReferenceView;

    open spec fn view(&self) -> PolynomialReferenceView {
        self.spec_view()
    }
}

impl Expression {
    pub open spec fn spec_view(&self) -> ExpressionView
        decreases self,
    {
        match self {
            Expression::Constant(s) => ExpressionView::Constant(s@),
            Expression::PublicReference(s) => ExpressionView::PublicReference(s@),
            Expression::Number(n) => ExpressionView::Number(*n as int),
            Expression::Text(s) => ExpressionView::Text(s@),
            Expression::Tuple(items) => ExpressionView::Tuple(view_exprs(items@)),
            Expression::FreeInput(e) => ExpressionView::FreeInput(Box::new(e.spec_view())),
            Expression::PolynomialReference(r) => ExpressionView::PolynomialReference(
                r.spec_view(),
            ),
            Expression::BinaryOperation(l, op, r) => ExpressionView::BinaryOperation(
                Box::new(l.spec_view()),
                *op,
                Box::new(r.spec_view()),
            ),
            Expression::UnaryOperation(op, e) => ExpressionView::UnaryOperation(
                *op,
                Box::new(e.spec_view()),
            ),
            Expression::FunctionCall(name, args) => ExpressionView::FunctionCall(
                name@,
                view_exprs(args@),
            ),
        }
    }
}

impl View for Expression {
    type V = ExpressionView;

    open spec fn view(&self) -> ExpressionView {
        self.spec_view()
    }
}

/// The elementwise view of a sequence of expressions.
pub open spec fn view_exprs(s: Seq<Expression>) -> Seq<ExpressionView>
    decreases s,
{
    if s.len() == 0 {
        Seq::empty()
    } else {
        view_exprs(s.drop_last()).push(s.last().spec_view())
    }
}

/// Exposes one unfolding of `Expression::spec_view` wherever a view is
/// mentioned; the view functions are recursive, and their definitions do not
/// travel across modules on their own.
pub proof fn lemma_expression_view(e: Expression)
    ensures
        e.spec_view() == (match e {
            Expression::Constant(s) => ExpressionView::Constant(s@),
            Expression::PublicReference(s) => ExpressionView::PublicReference(s@),
            Expression::Number(n) => ExpressionView::Number(n as int),
            Expression::Text(s) => ExpressionView::Text(s@),
            Expression::Tuple(items) => ExpressionView::Tuple(view_exprs(items@)),
            Expression::FreeInput(inner) => ExpressionView::FreeInput(Box::new(inner.spec_view())),
            Expression::PolynomialReference(r) => ExpressionView::PolynomialReference(
                r.spec_view(),
            ),
            Expression::BinaryOperation(l, op, r) => ExpressionView::BinaryOperation(
                Box::new(l.spec_view()),
                op,
                Box::new(r.spec_view()),
            ),
            Expression::UnaryOperation(op, inner) => ExpressionView::UnaryOperation(
                op,
                Box::new(inner.spec_view()),
            ),
            Expression::FunctionCall(name, args) => ExpressionView::FunctionCall(
                name@,
                view_exprs(args@),
            ),
        }),
{
}

/// The same for polynomial references.
pub proof fn lemma_poly_reference_view(r: PolynomialReference)
    ensures
        r.spec_view() == (PolynomialReferenceView {
            namespace: match &r.namespace {
                Option::Some(ns) => Option::Some(ns@),
                Option::None => Option::None,
            },
            name: r.name@,
            index: match &r.index {
                Option::Some(e) => Option::Some(Box::new(e.spec_view())),
                Option::None => Option::None,
            },
            next: r.next,
        }),
{
}

pub broadcast proof fn lemma_view_exprs(s: Seq<Expression>)
    ensures
        (#[trigger] view_exprs(s)).len() == s.len(),
        forall|i: int| 0 <= i < s.len() ==> view_exprs(s)[i] == s[i]@,
    decreases s,
{
    if s.len() > 0 {
        lemma_view_exprs(s.drop_last());
    }
}

// ---------------------------------------------------------------------------
// PIL statements
// ---------------------------------------------------------------------------

/// A committed polynomial's name in a declaration, with an optional array size.
#[derive(Debug)]
pub struct PolynomialName {
    pub name: String,
    pub array_size: Option<Expression>,
}

/// The definition attached to a constant polynomial.
#[derive(Debug)]
pub enum FunctionDefinition {
    /// A mapping `name(params) { body }`.
    Mapping(Vec<String>, Expression),
    /// An explicit list of row values.
    Array(Vec<Expression>),
}

/// One side of a plookup: an optional selector and a list of expressions.
#[derive(Debug)]
pub struct SelectedExpressions {
    pub selector: Option<Expression>,
    pub expressions: Vec<Expression>,
}

/// A PIL output statement. Inline PIL from the input is forwarded verbatim in
/// these same forms.
#[derive(Debug)]
pub enum Statement {
    PolynomialCommitDeclaration(usize, Vec<PolynomialName>, Option<FunctionDefinition>),
    PolynomialConstantDefinition(usize, String, FunctionDefinition),
    PolynomialDefinition(usize, String, Expression),
    PolynomialIdentity(usize, Expression),
    PlookupIdentity(usize, SelectedExpressions, SelectedExpressions),
}

/// The compiled constraint system: PIL statements in emission order.
#[derive(Debug)]
pub struct PILFile(pub Vec<Statement>);

#[verifier::ext_equal]
pub struct PolynomialNameView {
    pub name: Seq<char>,
    pub array_size: Option<ExpressionView>,
}

#[verifier::ext_equal]
pub enum FunctionDefinitionView {
    Mapping(Seq<Seq<char>>, ExpressionView),
    Array(Seq<ExpressionView>),
}

#[verifier::ext_equal]
pub struct SelectedExpressionsView {
    pub selector: Option<ExpressionView>,
    pub expressions: Seq<ExpressionView>,
}

#[verifier::ext_equal]
pub enum StatementView {
    PolynomialCommitDeclaration(int, Seq<PolynomialNameView>, Option<FunctionDefinitionView>),
    PolynomialConstantDefinition(int, Seq<char>, FunctionDefinitionView),
    PolynomialDefinition(int, Seq<char>, ExpressionView),
    PolynomialIdentity(int, ExpressionView),
    PlookupIdentity(int, SelectedExpressionsView, SelectedExpressionsView),
}

impl View for PolynomialName {
    type V = PolynomialNameView;

    open spec fn view(&self) -> PolynomialNameView {
        PolynomialNameView {
            name: self.name@,
            array_size: match &self.array_size {
                Option::Some(e) => Option::Some(e@),
                Option::None => Option::None,
            },
        }
    }
}

pub open spec fn view_poly_names(s: Seq<PolynomialName>) -> Seq<PolynomialNameView> {
    Seq::new(s.len(), |i: int| s[i]@)
}

pub open spec fn view_strings(s: Seq<String>) -> Seq<Seq<char>> {
    Seq::new(s.len(), |i: int| s[i]@)
}

impl View for FunctionDefinition {
    type V = FunctionDefinitionView;

    open spec fn view(&self) -> FunctionDefinitionView {
        match self {
            FunctionDefinition::Mapping(params, body) => FunctionDefinitionView::Mapping(
                view_strings(params@),
                body@,
            ),
            FunctionDefinition::Array(values) => FunctionDefinitionView::Array(view_exprs(values@)),
        }
    }
}

impl View for SelectedExpressions {
    type V = SelectedExpressionsView;

    open spec fn view(&self) -> SelectedExpressionsView {
        SelectedExpressionsView {
            selector: match &self.selector {
                Option::Some(e) => Option::Some(e@),
                Option::None => Option::None,
            },
            expressions: view_exprs(self.expressions@),
        }
    }
}

impl View for Statement {
    type V = StatementView;

    open spec fn view(&self) -> StatementView {
        match self {
            Statement::PolynomialCommitDeclaration(start, names, def) => {
                StatementView::PolynomialCommitDeclaration(
                    *start as int,
                    view_poly_names(names@),
                    match def {
                        Option::Some(d) => Option::Some(d@),
                        Option::None => Option::None,
                    },
                )
            },
            Statement::PolynomialConstantDefinition(start, name, def) => {
                StatementView::PolynomialConstantDefinition(*start as int, name@, def@)
            },
            Statement::PolynomialDefinition(start, name, e) => {
                StatementView::PolynomialDefinition(*start as int, name@, e@)
            },
            Statement::PolynomialIdentity(start, e) => {
                StatementView::PolynomialIdentity(*start as int, e@)
            },
            Statement::PlookupIdentity(start, left, right) => {
                StatementView::PlookupIdentity(*start as int, left@, right@)
            },
        }
    }
}

pub open spec fn view_statements(s: Seq<Statement>) -> Seq<StatementView> {
    Seq::new(s.len(), |i: int| s[i]@)
}

pub broadcast proof fn lemma_view_statements_push(s: Seq<Statement>, x: Statement)
    ensures
        #[trigger] view_statements(s.push(x)) == view_statements(s).push(x@),
{
    assert(view_statements(s.push(x)) =~= view_statements(s).push(x@));
}

pub broadcast proof fn lemma_view_strings_push(s: Seq<String>, x: String)
    ensures
        #[trigger] view_strings(s.push(x)) == view_strings(s).push(x@),
{
    assert(view_strings(s.push(x)) =~= view_strings(s).push(x@));
}

impl View for PILFile {
    type V = Seq<StatementView>;

    open spec fn view(&self) -> Seq<StatementView> {
        view_statements(self.0@)
    }
}

// ---------------------------------------------------------------------------
// ASM statements
// ---------------------------------------------------------------------------

/// A declared instruction parameter: an optional assignment-bus role (input or
/// output register name) and an optional type tag for literal arguments.
#[derive(Debug)]
pub struct InstructionParam {
    pub name: String,
    pub assignment_reg_in: Option<String>,
    pub assignment_reg_out: Option<String>,
    pub param_type: Option<String>,
}

/// One parsed ASM statement. The leading `usize` is the source offset, kept
/// only to be echoed into emitted PIL positions.
#[derive(Debug)]
pub enum ASMStatement {
    RegisterDeclaration(usize, String, Option<RegisterFlag>),
    InstructionDeclaration(usize, String, Vec<InstructionParam>, Vec<Expression>),
    InlinePil(usize, Vec<Statement>),
    Assignment(usize, Vec<String>, Option<String>, Expression),
    Instruction(usize, String, Vec<Expression>),
    Label(usize, String),
}

/// A parsed ASM program: the statement stream handed in by the parser.
#[derive(Debug)]
pub struct ASMFile(pub Vec<ASMStatement>);

#[verifier::ext_equal]
pub struct InstructionParamView {
    pub name: Seq<char>,
    pub assignment_reg_in: Option<Seq<char>>,
    pub assignment_reg_out: Option<Seq<char>>,
    pub param_type: Option<Seq<char>>,
}

#[verifier::ext_equal]
pub enum ASMStatementView {
    RegisterDeclaration(int, Seq<char>, Option<RegisterFlag>),
    InstructionDeclaration(int, Seq<char>, Seq<InstructionParamView>, Seq<ExpressionView>),
    InlinePil(int, Seq<StatementView>),
    Assignment(int, Seq<Seq<char>>, Option<Seq<char>>, ExpressionView),
    Instruction(int, Seq<char>, Seq<ExpressionView>),
    Label(int, Seq<char>),
}

impl View for InstructionParam {
    type V = InstructionParamView;

    open spec fn view(&self) -> InstructionParamView {
        InstructionParamView {
            name: self.name@,
            assignment_reg_in: match &self.assignment_reg_in {
                Option::Some(s) => Option::Some(s@),
                Option::None => Option::None,
            },
            assignment_reg_out: match &self.assignment_reg_out {
                Option::Some(s) => Option::Some(s@),
                Option::None => Option::None,
            },
            param_type: match &self.param_type {
                Option::Some(s) => Option::Some(s@),
                Option::None => Option::None,
            },
        }
    }
}

pub open spec fn view_params(s: Seq<InstructionParam>) -> Seq<InstructionParamView> {
    Seq::new(s.len(), |i: int| s[i]@)
}

impl View for ASMStatement {
    type V = ASMStatementView;

    open spec fn view(&self) -> ASMStatementView {
        match self {
            ASMStatement::RegisterDeclaration(start, name, flag) => {
                ASMStatementView::RegisterDeclaration(*start as int, name@, *flag)
            },
            ASMStatement::InstructionDeclaration(start, name, params, body) => {
                ASMStatementView::InstructionDeclaration(
                    *start as int,
                    name@,
                    view_params(params@),
                    view_exprs(body@),
                )
            },
            ASMStatement::InlinePil(start, statements) => {
                ASMStatementView::InlinePil(*start as int, view_statements(statements@))
            },
            ASMStatement::Assignment(start, write_regs, assign_reg, value) => {
                ASMStatementView::Assignment(
                    *start as int,
                    view_strings(write_regs@),
                    match assign_reg {
                        Option::Some(s) => Option::Some(s@),
                        Option::None => Option::None,
                    },
                    value@,
                )
            },
            ASMStatement::Instruction(start, name, args) => {
                ASMStatementView::Instruction(*start as int, name@, view_exprs(args@))
            },
            ASMStatement::Label(start, name) => {
                ASMStatementView::Label(*start as int, name@)
            },
        }
    }
}

pub open spec fn view_asm_statements(s: Seq<ASMStatement>) -> Seq<ASMStatementView> {
    Seq::new(s.len(), |i: int| s[i]@)
}

pub proof fn lemma_view_asm_statements(s: Seq<ASMStatement>)
    ensures
        view_asm_statements(s).len() == s.len(),
        forall|i: int| 0 <= i < s.len() ==> view_asm_statements(s)[i] == s[i]@,
{
}

impl View for ASMFile {
    type V = Seq<ASMStatementView>;

    open spec fn view(&self) -> Seq<ASMStatementView> {
        view_asm_statements(self.0@)
    }
}

} // verus!
