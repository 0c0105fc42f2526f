//! Column names: lexicographic order over character sequences, an ordered
//! association map keyed by names, and the derived column-name builders.
//!
//! The map iterates in strictly ascending key order, which is what makes the
//! emitted PIL deterministic: register identities and ROM columns come out in
//! name order, never in insertion or hash order.

use vstd::prelude::*;
use vstd::string::StrSliceExecFns;

verus! {

broadcast use crate::ast::lemma_view_exprs;

// ---------------------------------------------------------------------------
// Lexicographic order on names
// ---------------------------------------------------------------------------

#[derive(Debug, Clone, Copy, PartialEq, Eq, Structural)]
pub enum NameOrder {
    Less,
    Equal,
    Greater,
}

/// Lexicographic comparison of two names by character code.
pub open spec fn name_cmp(a: Seq<char>, b: Seq<char>) -> NameOrder
    decreases a.len(),
{
    if a.len() == 0 && b.len() == 0 {
        NameOrder::Equal
    } else if a.len() == 0 {
        NameOrder::Less
    } else if b.len() == 0 {
        NameOrder::Greater
    } else if a[0] == b[0] {
        name_cmp(a.drop_first(), b.drop_first())
    } else if (a[0] as u32) < (b[0] as u32) {
        NameOrder::Less
    } else {
        NameOrder::Greater
    }
}

/// Two names compare `Equal` exactly when they are the same sequence.
pub proof fn lemma_name_cmp_equal(a: Seq<char>, b: Seq<char>)
    ensures
        name_cmp(a, b) == NameOrder::Equal <==> a =~= b,
    decreases a.len(),
{
    if a.len() > 0 && b.len() > 0 && a[0] == b[0] {
        lemma_name_cmp_equal(a.drop_first(), b.drop_first());
        if name_cmp(a, b) == NameOrder::Equal {
            assert(a =~= seq![a[0]] + a.drop_first());
            assert(b =~= seq![b[0]] + b.drop_first());
        } else {
            if a =~= b {
                assert(a.drop_first() =~= b.drop_first());
            }
        }
    } else {
        if a =~= b && a.len() > 0 {
            assert(a[0] == b[0]);
        }
    }
}

/// Distinct characters have distinct character codes.
proof fn lemma_char_code_injective(x: char, y: char)
    ensures
        (x as u32) == (y as u32) ==> x == y,
{
    if (x as u32) == (y as u32) {
        vstd::utf8::char_u32_cast(x, x as u32);
        vstd::utf8::char_u32_cast(y, y as u32);
    }
}

/// The comparison is antisymmetric: swapping the arguments swaps the outcome.
pub proof fn lemma_name_cmp_flip(a: Seq<char>, b: Seq<char>)
    ensures
        name_cmp(a, b) == NameOrder::Less <==> name_cmp(b, a) == NameOrder::Greater,
    decreases a.len(),
{
    if a.len() > 0 && b.len() > 0 {
        if a[0] == b[0] {
            lemma_name_cmp_flip(a.drop_first(), b.drop_first());
        } else {
            lemma_char_code_injective(a[0], b[0]);
        }
    }
}

/// The strict order is transitive.
pub proof fn lemma_name_cmp_trans(a: Seq<char>, b: Seq<char>, c: Seq<char>)
    requires
        name_cmp(a, b) == NameOrder::Less,
        name_cmp(b, c) == NameOrder::Less,
    ensures
        name_cmp(a, c) == NameOrder::Less,
    decreases a.len() + b.len() + c.len(),
{
    if a.len() > 0 && b.len() > 0 && c.len() > 0 {
        if a[0] == b[0] && b[0] == c[0] {
            lemma_name_cmp_trans(a.drop_first(), b.drop_first(), c.drop_first());
        } else {
            lemma_char_code_injective(a[0], b[0]);
            lemma_char_code_injective(b[0], c[0]);
            lemma_char_code_injective(a[0], c[0]);
        }
    }
}

/// Skipping an equal prefix does not change the comparison.
pub proof fn lemma_name_cmp_skip(a: Seq<char>, b: Seq<char>, i: int)
    requires
        0 <= i <= a.len(),
        0 <= i <= b.len(),
        forall|j: int| 0 <= j < i ==> a[j] == b[j],
    ensures
        name_cmp(a, b) == name_cmp(a.skip(i), b.skip(i)),
    decreases i,
{
    if i > 0 {
        assert(a.len() > 0 && b.len() > 0 && a[0] == b[0]);
        assert(forall|j: int| 0 <= j < i - 1 ==> a.drop_first()[j] == b.drop_first()[j]);
        lemma_name_cmp_skip(a.drop_first(), b.drop_first(), i - 1);
        assert(a.drop_first().skip(i - 1) =~= a.skip(i));
        assert(b.drop_first().skip(i - 1) =~= b.skip(i));
    } else {
        assert(a.skip(0) =~= a);
        assert(b.skip(0) =~= b);
    }
}

/// Compares two names in lexicographic character-code order.
pub fn str_cmp(a: &str, b: &str) -> (r: NameOrder)
    ensures
        r == name_cmp(a@, b@),
{
    let alen = a.unicode_len();
    let blen = b.unicode_len();
    let mut i: usize = 0;
    loop
        invariant
            i <= alen,
            i <= blen,
            alen == a@.len(),
            blen == b@.len(),
            forall|j: int| 0 <= j < i ==> a@[j] == b@[j],
        decreases alen - i,
    {
        proof {
            lemma_name_cmp_skip(a@, b@, i as int);
        }
        if i == alen && i == blen {
            return NameOrder::Equal;
        }
        if i == alen {
            return NameOrder::Less;
        }
        if i == blen {
            return NameOrder::Greater;
        }
        let ca = a.get_char(i);
        let cb = b.get_char(i);
        if ca != cb {
            if (ca as u32) < (cb as u32) {
                return NameOrder::Less;
            } else {
                return NameOrder::Greater;
            }
        }
        i = i + 1;
    }
}

// ---------------------------------------------------------------------------
// The ordered association map
// ---------------------------------------------------------------------------

/// Looks a key up in an association sequence: the value of the first entry
/// whose key compares `Equal`.
pub open spec fn map_get<V>(m: Seq<(Seq<char>, V)>, key: Seq<char>) -> Option<V>
    decreases m.len(),
{
    if m.len() == 0 {
        Option::None
    } else if name_cmp(key, m[0].0) == NameOrder::Equal {
        Option::Some(m[0].1)
    } else {
        map_get(m.drop_first(), key)
    }
}

/// Inserts a key into an association sequence sorted in ascending key order,
/// replacing the entry of an equal key.
pub open spec fn map_insert<V>(
    m: Seq<(Seq<char>, V)>,
    key: Seq<char>,
    value: V,
) -> Seq<(Seq<char>, V)>
    decreases m.len(),
{
    if m.len() == 0 {
        seq![(key, value)]
    } else {
        match name_cmp(key, m[0].0) {
            NameOrder::Less => seq![(key, value)] + m,
            NameOrder::Equal => seq![(key, value)] + m.drop_first(),
            NameOrder::Greater => seq![m[0]] + map_insert(m.drop_first(), key, value),
        }
    }
}

/// Replaces the value of every entry whose key compares `Equal`. On a sorted
/// sequence at most one entry matches.
pub open spec fn map_set<V>(
    m: Seq<(Seq<char>, V)>,
    key: Seq<char>,
    value: V,
) -> Seq<(Seq<char>, V)> {
    Seq::new(
        m.len(),
        |i: int|
            if name_cmp(key, m[i].0) == NameOrder::Equal {
                (m[i].0, value)
            } else {
                m[i]
            },
    )
}

/// The keys are strictly ascending.
pub open spec fn map_sorted<V>(m: Seq<(Seq<char>, V)>) -> bool {
    forall|i: int, j: int|
        0 <= i < j < m.len() ==> name_cmp(#[trigger] m[i].0, #[trigger] m[j].0)
            == NameOrder::Less
}

/// `map_insert` keeps the keys strictly ascending.
pub proof fn lemma_map_insert_sorted<V>(m: Seq<(Seq<char>, V)>, key: Seq<char>, value: V)
    requires
        map_sorted(m),
    ensures
        map_sorted(map_insert(m, key, value)),
    decreases m.len(),
{
    if m.len() > 0 {
        let r = map_insert(m, key, value);
        match name_cmp(key, m[0].0) {
            NameOrder::Less => {
                assert forall|i: int, j: int| 0 <= i < j < r.len() implies name_cmp(
                    r[i].0,
                    r[j].0,
                ) == NameOrder::Less by {
                    assert(r[j].0 == m[j - 1].0);
                    if i == 0 {
                        if j > 1 {
                            assert(name_cmp(m[0].0, m[j - 1].0) == NameOrder::Less);
                            lemma_name_cmp_trans(key, m[0].0, m[j - 1].0);
                        }
                    } else {
                        assert(r[i].0 == m[i - 1].0);
                    }
                }
            },
            NameOrder::Equal => {
                lemma_name_cmp_equal(key, m[0].0);
                assert(key == m[0].0);
                assert forall|i: int, j: int| 0 <= i < j < r.len() implies name_cmp(
                    r[i].0,
                    r[j].0,
                ) == NameOrder::Less by {
                    if i == 0 {
                        assert(r[j].0 == m[j].0);
                        assert(name_cmp(m[0].0, m[j].0) == NameOrder::Less);
                    } else {
                        assert(r[i].0 == m[i].0);
                        assert(r[j].0 == m[j].0);
                    }
                }
            },
            NameOrder::Greater => {
                assert(map_sorted(m.drop_first())) by {
                    assert forall|i: int, j: int| 0 <= i < j < m.drop_first().len()
                        implies name_cmp(
                        #[trigger] m.drop_first()[i].0,
                        #[trigger] m.drop_first()[j].0,
                    ) == NameOrder::Less by {
                        assert(m.drop_first()[i].0 == m[i + 1].0);
                        assert(m.drop_first()[j].0 == m[j + 1].0);
                    }
                }
                lemma_map_insert_sorted(m.drop_first(), key, value);
                let rest = map_insert(m.drop_first(), key, value);
                lemma_name_cmp_flip(m[0].0, key);
                assert forall|i: int, j: int| 0 <= i < j < r.len() implies name_cmp(
                    r[i].0,
                    r[j].0,
                ) == NameOrder::Less by {
                    if i == 0 {
                        lemma_map_insert_member(m.drop_first(), key, value, j - 1);
                        assert(r[j].0 == rest[j - 1].0);
                        if rest[j - 1].0 != key {
                            let j2 = choose|j2: int|
                                0 <= j2 < m.drop_first().len() && rest[j - 1].0 == #[trigger] m
                                    .drop_first()[j2].0;
                            assert(m.drop_first()[j2].0 == m[j2 + 1].0);
                            assert(name_cmp(m[0].0, m[j2 + 1].0) == NameOrder::Less);
                        }
                    } else {
                        assert(r[i].0 == rest[i - 1].0);
                        assert(r[j].0 == rest[j - 1].0);
                    }
                }
            },
        }
    }
}

/// Every key of an inserted sequence is the new key or an old key.
pub proof fn lemma_map_insert_member<V>(
    m: Seq<(Seq<char>, V)>,
    key: Seq<char>,
    value: V,
    i: int,
)
    requires
        0 <= i < map_insert(m, key, value).len(),
    ensures
        map_insert(m, key, value)[i].0 == key || exists|j: int|
            0 <= j < m.len() && map_insert(m, key, value)[i].0 == #[trigger] m[j].0,
    decreases m.len(),
{
    if m.len() > 0 {
        match name_cmp(key, m[0].0) {
            NameOrder::Less => {},
            NameOrder::Equal => {},
            NameOrder::Greater => {
                if i > 0 {
                    lemma_map_insert_member(m.drop_first(), key, value, i - 1);
                }
            },
        }
    }
}

/// Looking past entries whose keys do not match leaves the lookup unchanged.
pub proof fn lemma_map_get_skip<V>(m: Seq<(Seq<char>, V)>, key: Seq<char>, i: int)
    requires
        0 <= i <= m.len(),
        forall|j: int| 0 <= j < i ==> name_cmp(key, #[trigger] m[j].0) != NameOrder::Equal,
    ensures
        map_get(m, key) == map_get(m.skip(i), key),
    decreases i,
{
    if i > 0 {
        assert(name_cmp(key, m[0].0) != NameOrder::Equal);
        lemma_map_get_skip(m.drop_first(), key, i - 1);
        assert(m.drop_first().skip(i - 1) =~= m.skip(i));
    } else {
        assert(m.skip(0) =~= m);
    }
}

/// Insertion past entries with strictly smaller keys only touches the tail.
pub proof fn lemma_map_insert_skip<V>(
    m: Seq<(Seq<char>, V)>,
    key: Seq<char>,
    value: V,
    i: int,
)
    requires
        0 <= i <= m.len(),
        forall|j: int| 0 <= j < i ==> name_cmp(key, #[trigger] m[j].0) == NameOrder::Greater,
    ensures
        map_insert(m, key, value) == m.take(i) + map_insert(m.skip(i), key, value),
    decreases i,
{
    if i > 0 {
        lemma_map_insert_skip(m.drop_first(), key, value, i - 1);
        assert(m.drop_first().skip(i - 1) =~= m.skip(i));
        assert(m.drop_first().take(i - 1) =~= m.take(i).drop_first());
        assert(seq![m[0]] + (m.take(i).drop_first() + map_insert(m.skip(i), key, value)) =~= m.take(
            i,
        ) + map_insert(m.skip(i), key, value));
    } else {
        assert(m.skip(0) =~= m);
        assert(m.take(0) + map_insert(m, key, value) =~= map_insert(m, key, value));
    }
}

/// An ordered map from names to values, kept sorted by `name_cmp`.
#[derive(Debug)]
pub struct NameMap<V> {
    pub entries: Vec<(String, V)>,
}

impl<V: View> View for NameMap<V> {
    type V = Seq<(Seq<char>, V::V)>;

    open spec fn view(&self) -> Seq<(Seq<char>, V::V)> {
        Seq::new(self.entries@.len(), |i: int| (self.entries@[i].0@, self.entries@[i].1@))
    }
}

impl<V: View> NameMap<V> {
    pub fn new() -> (r: Self)
        ensures
            r@ == Seq::<(Seq<char>, V::V)>::empty(),
    {
        let r = NameMap { entries: Vec::new() };
        proof {
            assert(r@ =~= Seq::<(Seq<char>, V::V)>::empty());
        }
        r
    }

    pub fn len(&self) -> (r: usize)
        ensures
            r == self@.len(),
    {
        self.entries.len()
    }

    pub fn key_at(&self, i: usize) -> (r: &String)
        requires
            i < self@.len(),
        ensures
            r@ == self@[i as int].0,
    {
        &self.entries[i].0
    }

    pub fn val_at(&self, i: usize) -> (r: &V)
        requires
            i < self@.len(),
        ensures
            r@ == self@[i as int].1,
    {
        &self.entries[i].1
    }

    /// Moves the entry at `i` out of the map.
    pub fn take_at(&mut self, i: usize) -> (r: (String, V))
        requires
            i < old(self)@.len(),
        ensures
            r.0@ == old(self)@[i as int].0,
            r.1@ == old(self)@[i as int].1,
            final(self)@ == old(self)@.remove(i as int),
    {
        let r = self.entries.remove(i);
        proof {
            assert(self@ =~= old(self)@.remove(i as int));
        }
        r
    }

    /// Puts an entry back at position `i`.
    pub fn put_at(&mut self, i: usize, key: String, value: V)
        requires
            i <= old(self)@.len(),
        ensures
            final(self)@ == old(self)@.insert(i as int, (key@, value@)),
    {
        self.entries.insert(i, (key, value));
        proof {
            assert(self@ =~= old(self)@.insert(i as int, (key@, value@)));
        }
    }

    /// Inserts in ascending key order, replacing an equal key's entry.
    pub fn insert(&mut self, key: String, value: V)
        ensures
            final(self)@ == map_insert(old(self)@, key@, value@),
    {
        let ghost m = self@;
        let mut i: usize = 0;
        loop
            invariant
                old(self)@ == m,
                self@ == m,
                i <= m.len(),
                self@.len() == self.entries@.len(),
                forall|j: int| 0 <= j < i ==> name_cmp(key@, #[trigger] m[j].0)
                    == NameOrder::Greater,
            decreases m.len() - i,
        {
            proof {
                lemma_map_insert_skip(m, key@, value@, i as int);
            }
            if i == self.entries.len() {
                self.entries.push((key, value));
                proof {
                    assert(self@ =~~= m.take(m.len() as int) + map_insert(
                        m.skip(m.len() as int),
                        key@,
                        value@,
                    ));
                }
                return ;
            }
            let order = str_cmp(key.as_str(), self.entries[i].0.as_str());
            match order {
                NameOrder::Less => {
                    self.entries.insert(i, (key, value));
                    proof {
                        assert(self@ =~~= m.take(i as int) + map_insert(
                            m.skip(i as int),
                            key@,
                            value@,
                        ));
                    }
                    return ;
                },
                NameOrder::Equal => {
                    let _old = self.entries.remove(i);
                    self.entries.insert(i, (key, value));
                    proof {
                        assert(m.skip(i as int).drop_first() =~= m.skip(i as int + 1));
                        assert(self@ =~~= m.take(i as int) + map_insert(
                            m.skip(i as int),
                            key@,
                            value@,
                        ));
                    }
                    return ;
                },
                NameOrder::Greater => {
                    i = i + 1;
                },
            }
        }
    }

    /// The position of the entry whose key equals `key`, if any.
    pub fn find(&self, key: &str) -> (r: Option<usize>)
        ensures
            match r {
                Option::Some(i) => {
                    &&& i < self@.len()
                    &&& self@[i as int].0 == key@
                    &&& map_get(self@, key@) == Option::Some(self@[i as int].1)
                },
                Option::None => map_get(self@, key@) is None,
            },
    {
        let ghost m = self@;
        let mut i: usize = 0;
        loop
            invariant
                i <= m.len(),
                self@ == m,
                self@.len() == self.entries@.len(),
                forall|j: int| 0 <= j < i ==> name_cmp(key@, #[trigger] m[j].0)
                    != NameOrder::Equal,
            decreases m.len() - i,
        {
            proof {
                lemma_map_get_skip(m, key@, i as int);
            }
            if i == self.entries.len() {
                return Option::None;
            }
            let order = str_cmp(key, self.entries[i].0.as_str());
            match order {
                NameOrder::Equal => {
                    proof {
                        lemma_name_cmp_equal(key@, m[i as int].0);
                        assert(m.skip(i as int)[0] == m[i as int]);
                    }
                    return Option::Some(i);
                },
                _ => {
                    i = i + 1;
                },
            }
        }
    }

    /// The value stored under `key`, if any.
    pub fn get(&self, key: &str) -> (r: Option<&V>)
        ensures
            match r {
                Option::Some(v) => map_get(self@, key@) == Option::Some(v@),
                Option::None => map_get(self@, key@) is None,
            },
    {
        match self.find(key) {
            Option::Some(i) => Option::Some(&self.entries[i].1),
            Option::None => Option::None,
        }
    }
}

// ---------------------------------------------------------------------------
// Name building
// ---------------------------------------------------------------------------

/// Relies on the standard library's `format!` to append one string to
/// another: the result is the first argument's characters followed by the
/// second's.
#[verifier::external_body]
pub fn concat_str(a: &str, b: &str) -> (r: String)
    ensures
        r@ == a@ + b@,
{
    format!("{a}{b}")
}

/// The write-flag column of a plain register.
pub open spec fn sn_reg_write(name: Seq<char>) -> Seq<char> {
    "reg_write_"@ + name
}

pub fn reg_write_col(name: &str) -> (r: String)
    ensures
        r@ == sn_reg_write(name@),
{
    concat_str("reg_write_", name)
}

/// The selection column of an instruction.
pub open spec fn sn_instr(name: Seq<char>) -> Seq<char> {
    "instr_"@ + name
}

pub fn instr_col(name: &str) -> (r: String)
    ensures
        r@ == sn_instr(name@),
{
    concat_str("instr_", name)
}

/// The literal-argument column of an instruction parameter.
pub open spec fn sn_instr_param(instr: Seq<char>, param: Seq<char>) -> Seq<char> {
    "instr_"@ + instr + "_param_"@ + param
}

pub fn instr_param_col(instr: &str, param: &str) -> (r: String)
    ensures
        r@ == sn_instr_param(instr@, param@),
{
    let head = concat_str("instr_", instr);
    let head = concat_str(head.as_str(), "_param_");
    let r = concat_str(head.as_str(), param);
    proof {
        assert(r@ =~= sn_instr_param(instr@, param@));
    }
    r
}

/// The constant-coefficient column of the assignment bus.
pub open spec fn sn_bus_const(bus: Seq<char>) -> Seq<char> {
    bus + "_const"@
}

pub fn bus_const_col(bus: &str) -> (r: String)
    ensures
        r@ == sn_bus_const(bus@),
{
    concat_str(bus, "_const")
}

/// The free-input-read flag column of the assignment bus.
pub open spec fn sn_bus_read_free(bus: Seq<char>) -> Seq<char> {
    bus + "_read_free"@
}

pub fn bus_read_free_col(bus: &str) -> (r: String)
    ensures
        r@ == sn_bus_read_free(bus@),
{
    concat_str(bus, "_read_free")
}

/// The free-input value column of the assignment bus.
pub open spec fn sn_bus_free_value(bus: Seq<char>) -> Seq<char> {
    bus + "_free_value"@
}

pub fn bus_free_value_col(bus: &str) -> (r: String)
    ensures
        r@ == sn_bus_free_value(bus@),
{
    concat_str(bus, "_free_value")
}

/// The read-coefficient column connecting a register to the bus.
pub open spec fn sn_read(bus: Seq<char>, reg: Seq<char>) -> Seq<char> {
    "read_"@ + bus + "_"@ + reg
}

pub fn read_col(bus: &str, reg: &str) -> (r: String)
    ensures
        r@ == sn_read(bus@, reg@),
{
    let head = concat_str("read_", bus);
    let head = concat_str(head.as_str(), "_");
    let r = concat_str(head.as_str(), reg);
    proof {
        assert(r@ =~= sn_read(bus@, reg@));
    }
    r
}

/// The fixed (ROM) column paired with a witness column.
pub open spec fn sn_fixed(name: Seq<char>) -> Seq<char> {
    "p_"@ + name
}

pub fn fixed_col(name: &str) -> (r: String)
    ensures
        r@ == sn_fixed(name@),
{
    concat_str("p_", name)
}

} // verus!
