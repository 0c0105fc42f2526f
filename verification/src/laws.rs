//! The library's laws: statements that relate several functions, proved once
//! and for all over the spec-level model the contracts are written in.

use vstd::prelude::*;
use crate::ast::{
    ASMStatementView, BinaryOperator, CompileError, ExpressionView, StatementView, UnaryOperator,
};
use crate::names::{map_get, map_sorted, name_cmp, NameOrder};
use crate::expression::{sv_add, sv_direct, sv_mul, sv_next, sv_sub};
use crate::compiler::{
    non_bus_keys, spec_compile, spec_negate_value, spec_reduce, spec_update_expression,
    st_bus_regs, update_identity_stmts, ConverterView, RegisterView,
};

verus! {

// ---------------------------------------------------------------------------
// Determinism
// ---------------------------------------------------------------------------

/// Compilation is deterministic: the whole output is a function of the input
/// alone, so two runs of `compile` on one input return the same value.
pub proof fn lemma_compile_deterministic(
    input: Seq<ASMStatementView>,
    r1: Result<Seq<StatementView>, CompileError>,
    r2: Result<Seq<StatementView>, CompileError>,
)
    requires
        r1 == spec_compile(input),
        r2 == spec_compile(input),
    ensures
        r1 == r2,
{
}

// ---------------------------------------------------------------------------
// Negation involution of the assignment reducer
// ---------------------------------------------------------------------------

/// Reducing a doubly negated expression gives the reduction of the
/// expression itself: the coefficients are equal, the components are equal,
/// and the order is kept.
pub proof fn lemma_reduce_negation_involution(e: ExpressionView)
    ensures
        spec_reduce(
            ExpressionView::UnaryOperation(
                UnaryOperator::Minus,
                Box::new(ExpressionView::UnaryOperation(UnaryOperator::Minus, Box::new(e))),
            ),
        ) == spec_reduce(e),
{
    reveal_with_fuel(spec_reduce, 3);
    match spec_reduce(e) {
        Result::Ok(v) => {
            assert(spec_negate_value(spec_negate_value(v)) =~= v);
        },
        Result::Err(_) => {},
    }
}

// ---------------------------------------------------------------------------
// PC identity uniqueness
// ---------------------------------------------------------------------------

/// Whether a statement is the register-next identity of `name`.
pub open spec fn is_next_identity_of(stmt: StatementView, name: Seq<char>) -> bool {
    stmt matches StatementView::PolynomialIdentity(_, e) && e matches
        ExpressionView::BinaryOperation(l, BinaryOperator::Sub, _) && *l == sv_next(name)
}

/// How many of the register-next identities name `next_reference(name)` on
/// their left side.
pub open spec fn count_next_identities(stmts: Seq<StatementView>, name: Seq<char>) -> int
    decreases stmts.len(),
{
    if stmts.len() == 0 {
        0
    } else {
        count_next_identities(stmts.drop_first(), name) + if is_next_identity_of(
            stmts[0],
            name,
        ) {
            1int
        } else {
            0int
        }
    }
}

/// Among the register-next identities of a table with strictly ascending
/// keys, exactly one is the identity of a register whose update expression
/// exists — in particular of the `pc` register, whose declaration always
/// gives it one.
pub proof fn lemma_pc_identity_unique(regs: Seq<(Seq<char>, RegisterView)>, pc: Seq<char>)
    requires
        map_sorted(regs),
        map_get(regs, pc) matches Option::Some(r) && spec_update_expression(r) is Some,
    ensures
        count_next_identities(update_identity_stmts(regs), pc) == 1,
    decreases regs.len(),
{
    crate::names::lemma_name_cmp_equal(pc, regs[0].0);
    if name_cmp(pc, regs[0].0) == NameOrder::Equal {
        assert(pc == regs[0].0);
        let ids = update_identity_stmts(regs);
        let rest = update_identity_stmts(regs.drop_first());
        assert(spec_update_expression(regs[0].1) is Some);
        let u = spec_update_expression(regs[0].1)->0;
        let own = StatementView::PolynomialIdentity(0, sv_sub(sv_next(regs[0].0), u));
        assert(is_next_identity_of(own, pc));
        assert(ids == seq![own] + rest);
        assert(ids.drop_first() =~= rest);
        assert forall|a: int|
            0 <= a < regs.drop_first().len() implies #[trigger] regs.drop_first()[a].0 != pc by {
            assert(regs.drop_first()[a].0 == regs[a + 1].0);
            assert(name_cmp(regs[0].0, regs[a + 1].0) == NameOrder::Less);
            crate::names::lemma_name_cmp_equal(regs[0].0, regs[a + 1].0);
        }
        lemma_no_next_identities_of_missing(regs.drop_first(), pc);
    } else {
        let rest = regs.drop_first();
        assert(map_sorted(rest)) by {
            assert forall|a: int, b: int| 0 <= a < b < rest.len() implies name_cmp(
                #[trigger] rest[a].0,
                #[trigger] rest[b].0,
            ) == NameOrder::Less by {
                assert(rest[a].0 == regs[a + 1].0);
                assert(rest[b].0 == regs[b + 1].0);
            }
        }
        lemma_pc_identity_unique(rest, pc);
        let ids = update_identity_stmts(regs);
        let restids = update_identity_stmts(rest);
        match spec_update_expression(regs[0].1) {
            Option::Some(u) => {
                let own = StatementView::PolynomialIdentity(0, sv_sub(sv_next(regs[0].0), u));
                assert(!is_next_identity_of(own, pc));
                assert(ids == seq![own] + restids);
                assert(ids.drop_first() =~= restids);
            },
            Option::None => {},
        }
    }
}

/// A table that never mentions `name` emits no identity of `name`.
proof fn lemma_no_next_identities_of_missing(regs: Seq<(Seq<char>, RegisterView)>, name: Seq<
    char,
>)
    requires
        forall|a: int| 0 <= a < regs.len() ==> #[trigger] regs[a].0 != name,
    ensures
        count_next_identities(update_identity_stmts(regs), name) == 0,
    decreases regs.len(),
{
    if regs.len() > 0 {
        assert forall|a: int| 0 <= a < regs.drop_first().len() implies #[trigger] regs
            .drop_first()[a].0 != name by {
            assert(regs.drop_first()[a].0 == regs[a + 1].0);
        }
        lemma_no_next_identities_of_missing(regs.drop_first(), name);
        let ids = update_identity_stmts(regs);
        let restids = update_identity_stmts(regs.drop_first());
        match spec_update_expression(regs[0].1) {
            Option::Some(u) => {
                let own = StatementView::PolynomialIdentity(0, sv_sub(sv_next(regs[0].0), u));
                assert(!is_next_identity_of(own, name));
                assert(ids == seq![own] + restids);
                assert(ids.drop_first() =~= restids);
            },
            Option::None => {},
        }
    }
}

// ---------------------------------------------------------------------------
// Assignment-bus closure
// ---------------------------------------------------------------------------

/// The terms of a left-associated sum, left to right.
pub open spec fn add_chain_terms(e: ExpressionView) -> Seq<ExpressionView>
    decreases e,
{
    if e matches ExpressionView::BinaryOperation(l, BinaryOperator::Add, r) {
        add_chain_terms(*e->BinaryOperation_0).push(*e->BinaryOperation_2)
    } else {
        seq![e]
    }
}

/// The expected term of one register on the bus identity's right side.
pub open spec fn read_term(bus: Seq<char>, reg: Seq<char>) -> ExpressionView {
    sv_mul(sv_direct(crate::names::sn_read(bus, reg)), sv_direct(reg))
}

/// What the fold of the non-bus registers accumulates: every register's read
/// term, in table order, appended to what was there before.
pub proof fn lemma_bus_regs_terms(
    s: ConverterView,
    bus: Seq<char>,
    regs: Seq<Seq<char>>,
    acc: ExpressionView,
)
    ensures
        st_bus_regs(s, bus, regs, Option::Some(acc)).1 matches Option::Some(a)
            && add_chain_terms(a) == add_chain_terms(acc) + Seq::new(
            regs.len(),
            |i: int| read_term(bus, regs[i]),
        ),
    decreases regs.len(),
{
    if regs.len() == 0 {
        assert(add_chain_terms(acc) + Seq::new(0, |i: int| read_term(bus, regs[i]))
            =~= add_chain_terms(acc));
    } else {
        let rc = crate::names::sn_read(bus, regs[0]);
        let term = read_term(bus, regs[0]);
        let acc2 = sv_add(acc, term);
        assert(add_chain_terms(acc2) == add_chain_terms(acc).push(term));
        lemma_bus_regs_terms(
            crate::compiler::st_pair(s, 0, rc),
            bus,
            regs.drop_first(),
            acc2,
        );
        let a = st_bus_regs(s, bus, regs, Option::Some(acc)).1->0;
        assert(add_chain_terms(a) =~= add_chain_terms(acc) + Seq::new(
            regs.len(),
            |i: int| read_term(bus, regs[i]),
        )) by {
            assert(add_chain_terms(a) == add_chain_terms(acc).push(term) + Seq::new(
                regs.drop_first().len(),
                |i: int| read_term(bus, regs.drop_first()[i]),
            ));
            assert(Seq::new(
                regs.drop_first().len(),
                |j: int| read_term(bus, regs.drop_first()[j]),
            ) =~= Seq::new(regs.len(), |j: int| read_term(bus, regs[j])).drop_first());
        }
    }
}

/// The same fold starting from nothing: the terms are exactly the registers'
/// read terms, one each, in order.
pub proof fn lemma_bus_regs_terms_from_empty(s: ConverterView, bus: Seq<char>, regs: Seq<
    Seq<char>,
>)
    requires
        regs.len() > 0,
    ensures
        st_bus_regs(s, bus, regs, Option::None).1 matches Option::Some(a) && add_chain_terms(a)
            == Seq::new(regs.len(), |i: int| read_term(bus, regs[i])),
    decreases regs.len(),
{
    let rc = crate::names::sn_read(bus, regs[0]);
    let term = read_term(bus, regs[0]);
    if regs.len() == 1 {
        assert(st_bus_regs(s, bus, regs, Option::None).1 == Option::Some(term)) by {
            assert(regs.drop_first().len() == 0);
        }
        assert(add_chain_terms(term) =~= Seq::new(1, |i: int| read_term(bus, regs[i])));
    } else {
        lemma_bus_regs_terms(
            crate::compiler::st_pair(s, 0, rc),
            bus,
            regs.drop_first(),
            term,
        );
        let a = st_bus_regs(s, bus, regs, Option::None).1->0;
        assert(add_chain_terms(term) =~= seq![term]);
        assert(add_chain_terms(a) =~= Seq::new(regs.len(), |i: int| read_term(bus, regs[i]))) by {
            assert(Seq::new(
                regs.drop_first().len(),
                |j: int| read_term(bus, regs.drop_first()[j]),
            ) =~= Seq::new(regs.len(), |j: int| read_term(bus, regs[j])).drop_first());
        }
    }
}

/// Assignment-bus closure: the bus identity's right side is the left
/// associated sum whose terms are exactly one `read_{bus}_{r} · r` per
/// declared non-bus register, in declaration-table order, followed by the
/// `{bus}_const` column and the `{bus}_read_free · {bus}_free_value`
/// product — nothing else is mentioned.
pub proof fn lemma_bus_closure(s: ConverterView)
    ensures
        ({
            let bus = s.default_assignment->0;
            let keys = non_bus_keys(crate::compiler::st_bus(s).registers, bus);
            let last = crate::compiler::st_bus(s).pil.last();
            &&& last matches StatementView::PolynomialIdentity(_, e)
            &&& e matches ExpressionView::BinaryOperation(l, BinaryOperator::Sub, rhs)
            &&& *l == sv_direct(bus)
            &&& add_chain_terms(*e->BinaryOperation_2) == Seq::new(
                keys.len(),
                |i: int| read_term(bus, keys[i]),
            ).push(sv_direct(crate::names::sn_bus_const(bus))).push(
                sv_mul(
                    sv_direct(crate::names::sn_bus_read_free(bus)),
                    sv_direct(crate::names::sn_bus_free_value(bus)),
                ),
            )
        }),
{
    let bus = s.default_assignment->0;
    let s1 = crate::compiler::st_pair(s, 0, crate::names::sn_bus_const(bus));
    let s2 = crate::compiler::st_pair(s1, 0, crate::names::sn_bus_read_free(bus));
    let s3 = ConverterView {
        pil: s2.pil.push(
            crate::expression::sv_witness(0, crate::names::sn_bus_free_value(bus)),
        ),
        ..s2
    };
    let keys = non_bus_keys(s3.registers, bus);
    crate::compiler::lemma_bus_regs_same(s3, bus, keys, Option::None);
    assert(crate::compiler::st_bus(s).registers == s3.registers);
    let folded = st_bus_regs(s3, bus, keys, Option::None);
    let cterm = sv_direct(crate::names::sn_bus_const(bus));
    let fterm = sv_mul(
        sv_direct(crate::names::sn_bus_read_free(bus)),
        sv_direct(crate::names::sn_bus_free_value(bus)),
    );
    if keys.len() == 0 {
        let rhs = sv_add(cterm, fterm);
        assert(add_chain_terms(sv_add(cterm, fterm)) == add_chain_terms(cterm).push(fterm));
        assert(add_chain_terms(cterm) =~= seq![cterm]);
        assert(add_chain_terms(rhs) =~= Seq::new(keys.len(), |i: int| read_term(bus, keys[i]))
            .push(cterm).push(fterm));
    } else {
        lemma_bus_regs_terms_from_empty(s3, bus, keys);
        let a = folded.1->0;
        let rhs = sv_add(sv_add(a, cterm), fterm);
        assert(add_chain_terms(rhs) == add_chain_terms(sv_add(a, cterm)).push(fterm));
        assert(add_chain_terms(sv_add(a, cterm)) == add_chain_terms(a).push(cterm));
        assert(add_chain_terms(rhs) =~= Seq::new(keys.len(), |i: int| read_term(bus, keys[i]))
            .push(cterm).push(fterm));
    }
}


// ---------------------------------------------------------------------------
// Fixed-definition completeness
// ---------------------------------------------------------------------------

/// How many of the emitted fixed definitions carry `name`.
pub open spec fn count_const_defs(stmts: Seq<StatementView>, name: Seq<char>) -> int
    decreases stmts.len(),
{
    if stmts.len() == 0 {
        0
    } else {
        count_const_defs(stmts.drop_first(), name) + if stmts[0] matches
            StatementView::PolynomialConstantDefinition(_, n, _) && n == name {
            1int
        } else {
            0int
        }
    }
}

/// The ROM emits exactly one fixed definition per constant of its table, and
/// each definition's vector has one row per code line. This is the fixed
/// side of column-declaration completeness: every name on the right of a
/// lookup pair is recorded as a program constant when its pair is made, so
/// its column is defined here exactly once.
pub proof fn lemma_const_defs_complete(
    consts: Seq<(Seq<char>, Seq<int>)>,
    name: Seq<char>,
    n: nat,
)
    requires
        map_sorted(consts),
        crate::compiler::consts_rows(consts, n),
        map_get(consts, name) is Some,
    ensures
        count_const_defs(crate::compiler::const_defs(consts), name) == 1,
        forall|i: int|
            0 <= i < crate::compiler::const_defs(consts).len()
                ==> ((#[trigger] crate::compiler::const_defs(consts)[i]) matches
                StatementView::PolynomialConstantDefinition(_, _, d) && d matches
                crate::ast::FunctionDefinitionView::Array(v) && v.len() == n),
    decreases consts.len(),
{
    let defs = crate::compiler::const_defs(consts);
    assert forall|i: int| 0 <= i < defs.len() implies (#[trigger] defs[i]) matches
        StatementView::PolynomialConstantDefinition(_, _, d) && d matches
        crate::ast::FunctionDefinitionView::Array(v) && v.len() == n by {
        assert(consts[i].1.len() == n);
    }
    lemma_count_const_defs_from_table(consts, name);
}

/// Counting definitions of `name` in the table's tail: one when the tail
/// still holds the key, none after it was passed.
proof fn lemma_count_const_defs_from_table(consts: Seq<(Seq<char>, Seq<int>)>, name: Seq<char>)
    requires
        map_sorted(consts),
        map_get(consts, name) is Some,
    ensures
        count_const_defs(crate::compiler::const_defs(consts), name) == 1,
    decreases consts.len(),
{
    let defs = crate::compiler::const_defs(consts);
    crate::names::lemma_name_cmp_equal(name, consts[0].0);
    assert(defs.drop_first() =~= crate::compiler::const_defs(consts.drop_first()));
    if name_cmp(name, consts[0].0) == NameOrder::Equal {
        assert(defs[0] matches StatementView::PolynomialConstantDefinition(_, n2, _) && n2
            == name);
        assert forall|a: int| 0 <= a < consts.drop_first().len() implies
            #[trigger] consts.drop_first()[a].0 != name by {
            assert(consts.drop_first()[a].0 == consts[a + 1].0);
            assert(name_cmp(consts[0].0, consts[a + 1].0) == NameOrder::Less);
            crate::names::lemma_name_cmp_equal(consts[0].0, consts[a + 1].0);
        }
        lemma_count_const_defs_absent(consts.drop_first(), name);
    } else {
        assert(map_sorted(consts.drop_first())) by {
            assert forall|a: int, b: int| 0 <= a < b < consts.drop_first().len() implies
                name_cmp(
                #[trigger] consts.drop_first()[a].0,
                #[trigger] consts.drop_first()[b].0,
            ) == NameOrder::Less by {
                assert(consts.drop_first()[a].0 == consts[a + 1].0);
                assert(consts.drop_first()[b].0 == consts[b + 1].0);
            }
        }
        lemma_count_const_defs_from_table(consts.drop_first(), name);
        assert(defs[0] matches StatementView::PolynomialConstantDefinition(_, n2, _) && n2
            != name);
    }
}

/// A table without the key emits no definition of it.
proof fn lemma_count_const_defs_absent(consts: Seq<(Seq<char>, Seq<int>)>, name: Seq<char>)
    requires
        forall|a: int| 0 <= a < consts.len() ==> #[trigger] consts[a].0 != name,
    ensures
        count_const_defs(crate::compiler::const_defs(consts), name) == 0,
    decreases consts.len(),
{
    if consts.len() > 0 {
        assert forall|a: int| 0 <= a < consts.drop_first().len() implies
            #[trigger] consts.drop_first()[a].0 != name by {
            assert(consts.drop_first()[a].0 == consts[a + 1].0);
        }
        lemma_count_const_defs_absent(consts.drop_first(), name);
        assert(crate::compiler::const_defs(consts).drop_first()
            =~= crate::compiler::const_defs(consts.drop_first()));
    }
}


// ---------------------------------------------------------------------------
// ROM writes are local
// ---------------------------------------------------------------------------

/// Looking a key up after a `map_set` of another key sees the old value;
/// looking the written key up sees the new one.
pub proof fn lemma_map_get_after_set<V>(
    m: Seq<(Seq<char>, V)>,
    key: Seq<char>,
    value: V,
    probe: Seq<char>,
)
    ensures
        map_get(crate::names::map_set(m, key, value), probe) == (match map_get(m, probe) {
            Option::Some(old_v) => Option::Some(
                if probe == key {
                    value
                } else {
                    old_v
                },
            ),
            Option::None => Option::None,
        }),
    decreases m.len(),
{
    if m.len() > 0 {
        lemma_map_get_after_set(m.drop_first(), key, value, probe);
        assert(crate::names::map_set(m, key, value).drop_first() =~= crate::names::map_set(
            m.drop_first(),
            key,
            value,
        ));
        crate::names::lemma_name_cmp_equal(probe, m[0].0);
        crate::names::lemma_name_cmp_equal(key, m[0].0);
        if name_cmp(probe, m[0].0) == NameOrder::Equal {
            if probe == key {
                assert(name_cmp(key, m[0].0) == NameOrder::Equal);
            } else {
                assert(name_cmp(key, m[0].0) != NameOrder::Equal);
            }
        }
    }
}

/// A ROM write is local: it writes the given value at the given row of the
/// given column, and every other column keeps its value. Together with the
/// all-zero initial columns this is why each program line can raise at most
/// one instruction-selection flag, and why a stored label position is not
/// disturbed by the fills of other columns.
pub proof fn lemma_rom_fill_local(
    consts: Seq<(Seq<char>, Seq<int>)>,
    key: Seq<char>,
    row: int,
    val: int,
)
    requires
        crate::compiler::rom_fill(consts, key, row, val) is Ok,
    ensures
        ({
            let filled = crate::compiler::rom_fill(consts, key, row, val)->Ok_0;
            &&& map_get(filled, key) == Option::Some(map_get(consts, key)->0.update(row, val))
            &&& forall|probe: Seq<char>| probe != key ==> #[trigger] map_get(filled, probe)
                == map_get(consts, probe)
        }),
{
    let v = map_get(consts, key)->0;
    let filled = crate::compiler::rom_fill(consts, key, row, val)->Ok_0;
    lemma_map_get_after_set(consts, key, v.update(row, val), key);
    assert forall|probe: Seq<char>| probe != key implies #[trigger] map_get(filled, probe)
        == map_get(consts, probe) by {
        lemma_map_get_after_set(consts, key, v.update(row, val), probe);
    }
}

} // verus!
