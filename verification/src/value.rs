//! The values that patterns are evaluated against, and what an evaluation
//! hands back.
//!
//! A value mirrors the JSON data domain. Numbers come in two shapes: an
//! integer is held exactly, a decimal is held as the bits of a
//! double-precision number, the one that the reader of the document made of
//! what was written. An object is read as a map: under each name the first
//! member of that name is the one that counts.

use crate::table::{find, index_of, keys, names};
use vstd::arithmetic::power2::{
    lemma2_to64, lemma2_to64_rest, lemma_pow2_adds, lemma_pow2_pos, lemma_pow2_strictly_increases,
    lemma_pow2_unfold, pow2,
};
use vstd::prelude::*;

verus! {

/// What a value holds. The members of an object are kept in the order in
/// which they were given, which has no part in equality. A decimal is
/// described by its bits.
pub enum ValueModel {
    Null,
    Boolean(bool),
    Integer(int),
    Decimal(u64),
    String(Seq<char>),
    List(Seq<ValueModel>),
    Object(Seq<(Seq<char>, ValueModel)>),
}

/// The sign bit of a decimal.
pub open spec fn decimal_negative(bits: u64) -> bool {
    bits >> 63 == 1
}

/// The exponent field of a decimal.
pub open spec fn decimal_exponent(bits: u64) -> int {
    ((bits >> 52) & 0x7ff) as int
}

/// The fraction field of a decimal.
pub open spec fn decimal_fraction(bits: u64) -> int {
    (bits & 0xf_ffff_ffff_ffff) as int
}

/// A decimal is finite when it is neither an infinity nor a failed
/// computation.
pub open spec fn decimal_finite(bits: u64) -> bool {
    decimal_exponent(bits) != 0x7ff
}

/// The significand `m` of a finite decimal, whose magnitude is
/// `m * 2^decimal_scale`.
pub open spec fn decimal_significand(bits: u64) -> int {
    if decimal_exponent(bits) == 0 {
        decimal_fraction(bits)
    } else {
        decimal_fraction(bits) + 0x10_0000_0000_0000
    }
}

/// The power of two by which the significand of a finite decimal is scaled.
pub open spec fn decimal_scale(bits: u64) -> int {
    if decimal_exponent(bits) == 0 {
        -1074
    } else {
        decimal_exponent(bits) - 1075
    }
}

/// The magnitude of an integer.
pub open spec fn magnitude(i: int) -> int {
    if i < 0 {
        -i
    } else {
        i
    }
}

/// The decimal with these bits denotes the integer `i`: it is finite, and
/// its sign and magnitude are those of `i`. Both zeros denote 0.
pub open spec fn decimal_is(bits: u64, i: int) -> bool {
    let m = decimal_significand(bits);
    let e = decimal_scale(bits);
    &&& decimal_finite(bits)
    &&& m == 0 ==> i == 0
    &&& m != 0 ==> decimal_negative(bits) == (i < 0)
    &&& if e >= 0 {
        m * pow2(e as nat) == magnitude(i)
    } else {
        m == magnitude(i) * pow2((-e) as nat)
    }
}

/// Two decimals are the same number when their bits agree, or when both are
/// a zero. Of finite decimals no two others denote the same number.
pub open spec fn same_decimal(left: u64, right: u64) -> bool {
    left == right || (left & 0x7fff_ffff_ffff_ffff == 0 && right & 0x7fff_ffff_ffff_ffff == 0)
}

/// Whether the member at `i` is the one that counts under its name: the
/// first member of that name.
pub open spec fn counts(members: Seq<(Seq<char>, ValueModel)>, i: int) -> bool {
    0 <= i < members.len() && index_of(keys(members), members[i].0) == Some(i)
}

/// Equality of values. Values of different kinds differ, but for numbers: an
/// integer and a decimal are equal when they denote the same number. Lists
/// are equal item by item. Objects are equal as maps: each name of one is a
/// name of the other, with an equal value, whatever the order of the
/// members.
pub open spec fn same_value(left: ValueModel, right: ValueModel) -> bool
    decreases left,
{
    match (left, right) {
        (ValueModel::Null, ValueModel::Null) => true,
        (ValueModel::Boolean(x), ValueModel::Boolean(y)) => x == y,
        (ValueModel::Integer(x), ValueModel::Integer(y)) => x == y,
        (ValueModel::Decimal(x), ValueModel::Decimal(y)) => same_decimal(x, y),
        (ValueModel::Integer(x), ValueModel::Decimal(y)) => decimal_is(y, x),
        (ValueModel::Decimal(x), ValueModel::Integer(y)) => decimal_is(x, y),
        (ValueModel::String(x), ValueModel::String(y)) => x == y,
        (ValueModel::List(x), ValueModel::List(y)) => {
            &&& x.len() == y.len()
            &&& forall|i: int| #![trigger x[i]] 0 <= i < x.len() ==> same_value(x[i], y[i])
        },
        (ValueModel::Object(x), ValueModel::Object(y)) => {
            &&& forall|i: int|
                #![trigger x[i]]
                0 <= i < x.len() && counts(x, i) ==> match index_of(keys(y), x[i].0) {
                    Some(j) => 0 <= j < y.len() && same_value(x[i].1, y[j].1),
                    None => false,
                }
            &&& forall|j: int|
                #![trigger y[j]]
                0 <= j < y.len() && counts(y, j) ==> match index_of(keys(x), y[j].0) {
                    Some(i) => 0 <= i < x.len() && same_value(x[i].1, y[j].1),
                    None => false,
                }
        },
        _ => false,
    }
}

/// Whether `right` holds, under the name of the member of `left` at `i`, a
/// value equal to that member's.
pub open spec fn member_found(
    left: Seq<(Seq<char>, ValueModel)>,
    i: int,
    right: Seq<(Seq<char>, ValueModel)>,
) -> bool {
    0 <= i < left.len() && match index_of(keys(right), left[i].0) {
        Some(j) => 0 <= j < right.len() && same_value(left[i].1, right[j].1),
        None => false,
    }
}

/// Whether `left` holds, under the name of the member of `right` at `j`, a
/// value equal to that member's.
pub open spec fn member_finds(
    left: Seq<(Seq<char>, ValueModel)>,
    right: Seq<(Seq<char>, ValueModel)>,
    j: int,
) -> bool {
    0 <= j < right.len() && match index_of(keys(left), right[j].0) {
        Some(i) => 0 <= i < left.len() && same_value(left[i].1, right[j].1),
        None => false,
    }
}


/// Objects differ where a member that counts in the left one has no equal
/// in the right one.
proof fn lemma_member_not_found(
    left: Seq<(Seq<char>, ValueModel)>,
    right: Seq<(Seq<char>, ValueModel)>,
    i: int,
)
    requires
        counts(left, i),
        !member_found(left, i, right),
    ensures
        !same_value(ValueModel::Object(left), ValueModel::Object(right)),
{
    let witness = left[i];
}

/// Objects differ where a member that counts in the right one has no equal
/// in the left one.
proof fn lemma_member_finds_none(
    left: Seq<(Seq<char>, ValueModel)>,
    right: Seq<(Seq<char>, ValueModel)>,
    j: int,
)
    requires
        counts(right, j),
        !member_finds(left, right, j),
    ensures
        !same_value(ValueModel::Object(left), ValueModel::Object(right)),
{
    let witness = right[j];
}

/// Every value is equal to itself.
pub proof fn law_same_value_is_reflexive(value: ValueModel)
    ensures
        same_value(value, value),
    decreases value,
{
    match value {
        ValueModel::List(items) => {
            assert forall|i: int| #![trigger items[i]] 0 <= i < items.len() implies same_value(
                items[i],
                items[i],
            ) by {
                law_same_value_is_reflexive(items[i]);
            }
        },
        ValueModel::Object(members) => {
            assert forall|i: int| #![trigger members[i]] counts(members, i) implies member_found(
                members,
                i,
                members,
            ) && member_finds(members, members, i) by {
                law_same_value_is_reflexive(members[i].1);
            }
        },
        _ => {},
    }
}

/// Equality of values does not depend on the side that a value stands on.
pub proof fn law_same_value_is_symmetric(left: ValueModel, right: ValueModel)
    ensures
        same_value(left, right) == same_value(right, left),
    decreases left,
{
    match (left, right) {
        (ValueModel::List(x), ValueModel::List(y)) => {
            if x.len() == y.len() {
                assert forall|i: int| 0 <= i < x.len() implies same_value(x[i], y[i])
                    == same_value(y[i], x[i]) by {
                    law_same_value_is_symmetric(x[i], y[i]);
                }
                if same_value(left, right) {
                    assert forall|i: int| #![trigger y[i]] 0 <= i < y.len() implies same_value(
                        y[i],
                        x[i],
                    ) by {
                        assert(same_value(x[i], y[i]));
                    }
                }
                if same_value(right, left) {
                    assert forall|i: int| #![trigger x[i]] 0 <= i < x.len() implies same_value(
                        x[i],
                        y[i],
                    ) by {
                        assert(same_value(y[i], x[i]));
                    }
                }
            }
        },
        (ValueModel::Object(x), ValueModel::Object(y)) => {
            assert forall|i: int, j: int|
                #![trigger x[i], y[j]]
                0 <= i < x.len() && 0 <= j < y.len() implies same_value(x[i].1, y[j].1)
                == same_value(y[j].1, x[i].1) by {
                law_same_value_is_symmetric(x[i].1, y[j].1);
            }
            assert forall|i: int| 0 <= i < x.len() implies member_found(x, i, y) == member_finds(
                y,
                x,
                i,
            ) by {}
            assert forall|j: int| 0 <= j < y.len() implies member_finds(x, y, j) == member_found(
                y,
                j,
                x,
            ) by {}
            if same_value(left, right) {
                assert forall|j: int| #![trigger y[j]] counts(y, j) implies member_found(
                    y,
                    j,
                    x,
                ) by {
                    assert(member_finds(x, y, j));
                }
                assert forall|i: int| #![trigger x[i]] counts(x, i) implies member_finds(
                    y,
                    x,
                    i,
                ) by {
                    assert(member_found(x, i, y));
                }
            }
            if same_value(right, left) {
                assert forall|i: int| #![trigger x[i]] counts(x, i) implies member_found(
                    x,
                    i,
                    y,
                ) by {
                    assert(member_finds(y, x, i));
                }
                assert forall|j: int| #![trigger y[j]] counts(y, j) implies member_finds(
                    x,
                    y,
                    j,
                ) by {
                    assert(member_found(y, j, x));
                }
            }
        },
        _ => {},
    }
}

/// The magnitude that a significand and a scale stand for is `magnitude`.
spec fn scales_to(m: int, e: int, magnitude: int) -> bool {
    if e >= 0 {
        m * pow2(e as nat) == magnitude
    } else {
        m == magnitude * pow2((-e) as nat)
    }
}

/// Two significands of full width that stand for the same magnitude have the
/// same scale, and are the same.
proof fn lemma_one_scale(m1: int, e1: int, m2: int, e2: int, magnitude: int)
    requires
        0x10_0000_0000_0000 <= m1 < 0x20_0000_0000_0000,
        0x10_0000_0000_0000 <= m2 < 0x20_0000_0000_0000,
        magnitude >= 1,
        e1 >= e2,
        scales_to(m1, e1, magnitude),
        scales_to(m2, e2, magnitude),
    ensures
        e1 == e2,
        m1 == m2,
{
    if e1 > e2 {
        let d = (e1 - e2) as nat;
        lemma_pow2_pos(d);
        lemma2_to64();
        if d > 1 {
            lemma_pow2_strictly_increases(1, d);
        }
        let g = pow2(d) as int;
        assert(g >= 2);
        if e2 >= 0 {
            let p = pow2(e2 as nat) as int;
            lemma_pow2_pos(e2 as nat);
            lemma_pow2_adds(e2 as nat, d);
            assert(pow2(e1 as nat) == p * g);
            assert(m1 * (p * g) > m2 * p) by (nonlinear_arith)
                requires
                    m1 >= 0x10_0000_0000_0000,
                    m2 < 0x20_0000_0000_0000,
                    g >= 2,
                    p >= 1,
            ;
        } else if e1 >= 0 {
            let p = pow2(e1 as nat) as int;
            let q = pow2((-e2) as nat) as int;
            lemma_pow2_pos(e1 as nat);
            lemma2_to64();
            if -e2 > 1 {
                lemma_pow2_strictly_increases(1, (-e2) as nat);
            }
            assert(q >= 2);
            assert((m1 * p) * q >= 0x20_0000_0000_0000) by (nonlinear_arith)
                requires
                    m1 >= 0x10_0000_0000_0000,
                    p >= 1,
                    q >= 2,
            ;
        } else {
            let q = pow2((-e1) as nat) as int;
            lemma_pow2_pos((-e1) as nat);
            lemma_pow2_adds((-e1) as nat, d);
            assert(pow2((-e2) as nat) == q * g);
            assert(magnitude * (q * g) == (magnitude * q) * g) by (nonlinear_arith);
            assert(m1 * g >= 0x20_0000_0000_0000) by (nonlinear_arith)
                requires
                    m1 >= 0x10_0000_0000_0000,
                    g >= 2,
            ;
        }
    } else if e1 >= 0 {
        let p = pow2(e1 as nat) as int;
        lemma_pow2_pos(e1 as nat);
        assert(m1 == m2) by (nonlinear_arith)
            requires
                m1 * p == m2 * p,
                p >= 1,
        ;
    }
}

/// The number that a decimal denotes decides the decimal: two decimals that
/// denote the same integer are the same number.
pub proof fn law_decimals_of_one_integer(left: u64, right: u64, i: int)
    requires
        decimal_is(left, i),
        decimal_is(right, i),
    ensures
        same_decimal(left, right),
{
    let m1 = decimal_significand(left);
    let m2 = decimal_significand(right);
    let e1 = decimal_scale(left);
    let e2 = decimal_scale(right);
    let mag = magnitude(i);
    lemma_fields(left);
    lemma_fields(right);
    lemma_pow2_pos((if e1 >= 0 { e1 } else { -e1 }) as nat);
    lemma_pow2_pos((if e2 >= 0 { e2 } else { -e2 }) as nat);
    if i == 0 {
        lemma_scaled_nothing(m1, e1);
        lemma_scaled_nothing(m2, e2);
    } else {
        lemma_full_width(left, mag);
        lemma_full_width(right, mag);
        if e1 >= e2 {
            lemma_one_scale(m1, e1, m2, e2, mag);
        } else {
            lemma_one_scale(m2, e2, m1, e1, mag);
        }
        assert(left == right) by (bit_vector)
            requires
                (left >> 63 == 1) == (right >> 63 == 1),
                (left >> 52) & 0x7ff == (right >> 52) & 0x7ff,
                left & 0xf_ffff_ffff_ffff == right & 0xf_ffff_ffff_ffff,
        ;
    }
}

/// What the fields of a decimal can be, and when all but the sign is zero.
proof fn lemma_fields(bits: u64)
    ensures
        0 <= decimal_exponent(bits) <= 0x7ff,
        0 <= decimal_fraction(bits) < 0x10_0000_0000_0000,
        decimal_exponent(bits) == 0 && decimal_fraction(bits) == 0 ==> bits
            & 0x7fff_ffff_ffff_ffff == 0,
{
    assert((bits >> 52) & 0x7ff <= 0x7ff) by (bit_vector);
    assert(bits & 0xf_ffff_ffff_ffff < 0x10_0000_0000_0000) by (bit_vector);
    assert((bits >> 52) & 0x7ff == 0 && bits & 0xf_ffff_ffff_ffff == 0 ==> bits
        & 0x7fff_ffff_ffff_ffff == 0) by (bit_vector);
}

/// A significand that stands for nothing is zero.
proof fn lemma_scaled_nothing(m: int, e: int)
    requires
        m >= 0,
        scales_to(m, e, 0),
    ensures
        m == 0,
{
    if e >= 0 {
        let p = pow2(e as nat) as int;
        lemma_pow2_pos(e as nat);
        assert(m == 0) by (nonlinear_arith)
            requires
                m * p == 0,
                p >= 1,
                m >= 0,
        ;
    } else {
        assert(0 * pow2((-e) as nat) == 0) by (nonlinear_arith);
    }
}

/// A decimal that denotes an integer other than zero has a significand of
/// full width.
proof fn lemma_full_width(bits: u64, mag: int)
    requires
        mag >= 1,
        decimal_finite(bits),
        scales_to(decimal_significand(bits), decimal_scale(bits), mag),
        0 <= decimal_fraction(bits) < 0x10_0000_0000_0000,
    ensures
        decimal_exponent(bits) != 0,
        0x10_0000_0000_0000 <= decimal_significand(bits) < 0x20_0000_0000_0000,
{
    if decimal_exponent(bits) == 0 {
        lemma2_to64();
        lemma2_to64_rest();
        lemma_pow2_strictly_increases(52, 1074);
        let q = pow2(1074) as int;
        assert(mag * q >= q) by (nonlinear_arith)
            requires
                mag >= 1,
                q >= 0,
        ;
    }
}

/// A decimal number, held as the bits of a double-precision number.
#[derive(Debug, Clone, Copy, PartialEq, Eq)]
pub struct Decimal {
    pub bits: u64,
}

/// Two to the power `k`.
fn power_of_two(k: u64) -> (r: u64)
    requires
        k <= 63,
    ensures
        r == pow2(k as nat),
{
    let mut r: u64 = 1;
    let mut j: u64 = 0;
    proof {
        lemma2_to64();
    }
    while j < k
        invariant
            j <= k <= 63,
            r == pow2(j as nat),
        decreases k - j,
    {
        proof {
            lemma_pow2_unfold((j + 1) as nat);
            lemma2_to64();
            if j + 1 < 64 {
                lemma_pow2_strictly_increases((j + 1) as nat, 64);
            }
        }
        r = r * 2;
        j += 1;
    }
    r
}

impl Decimal {
    /// The decimal with these bits.
    pub fn from_bits(bits: u64) -> (r: Self)
        ensures
            r.bits == bits,
    {
        Decimal { bits }
    }

    /// Tells whether both decimals are the same number.
    pub fn same(&self, other: &Decimal) -> (r: bool)
        ensures
            r == same_decimal(self.bits, other.bits),
    {
        self.bits == other.bits || (self.bits & 0x7fff_ffff_ffff_ffff == 0 && other.bits
            & 0x7fff_ffff_ffff_ffff == 0)
    }

    /// Tells whether the decimal denotes the integer `i`.
    pub fn denotes(&self, i: i64) -> (r: bool)
        ensures
            r == decimal_is(self.bits, i as int),
    {
        let bits = self.bits;
        let exponent: u64 = (bits >> 52) & 0x7ff;
        let fraction: u64 = bits & 0xf_ffff_ffff_ffff;
        let negative: bool = (bits >> 63) == 1;
        assert(exponent <= 0x7ff) by (bit_vector)
            requires
                exponent == (bits >> 52) & 0x7ff,
        ;
        assert(fraction < 0x10_0000_0000_0000) by (bit_vector)
            requires
                fraction == bits & 0xf_ffff_ffff_ffff,
        ;
        if exponent == 0x7ff {
            return false;
        }
        let m: u64 = if exponent == 0 {
            fraction
        } else {
            fraction + 0x10_0000_0000_0000
        };
        let mag: u64 = if i < 0 {
            ((-(i + 1)) as u64) + 1
        } else {
            i as u64
        };
        assert(mag == magnitude(i as int));
        if m == 0 {
            proof {
                lemma_zero_scaled(mag as int, decimal_scale(bits));
            }
            return i == 0;
        }
        if i == 0 {
            proof {
                lemma_scaled_positive(m as int, decimal_scale(bits));
            }
            return false;
        }
        if negative != (i < 0) {
            return false;
        }
        if exponent >= 1075 {
            let e: u64 = exponent - 1075;
            if e > 11 {
                proof {
                    lemma2_to64();
                    if e > 12 {
                        lemma_pow2_strictly_increases(12, e as nat);
                    }
                    assert(m * pow2(e as nat) >= 0x10_0000_0000_0000 * 0x1000) by (nonlinear_arith)
                        requires
                            m >= 0x10_0000_0000_0000,
                            pow2(e as nat) >= 0x1000,
                    ;
                }
                return false;
            }
            let p = power_of_two(e);
            proof {
                lemma2_to64();
                if e < 11 {
                    lemma_pow2_strictly_increases(e as nat, 11);
                }
                assert(m * p < 0x20_0000_0000_0000 * 0x800) by (nonlinear_arith)
                    requires
                        m < 0x20_0000_0000_0000,
                        p <= 0x800,
                        m >= 0,
                        p >= 0,
                ;
            }
            m * p == mag
        } else {
            let k: u64 = if exponent == 0 {
                1074
            } else {
                1075 - exponent
            };
            if k > 63 {
                proof {
                    lemma2_to64();
                    lemma2_to64_more();
                    lemma_pow2_strictly_increases(63, k as nat);
                    assert(mag * pow2(k as nat) >= 0x8000_0000_0000_0000) by (nonlinear_arith)
                        requires
                            mag >= 1,
                            pow2(k as nat) >= 0x8000_0000_0000_0000,
                    ;
                }
                return false;
            }
            let p = power_of_two(k);
            assert((mag as u128) * (p as u128) <= 0xffff_ffff_ffff_ffff * 0xffff_ffff_ffff_ffff)
                by (nonlinear_arith)
                requires
                    mag <= 0xffff_ffff_ffff_ffff,
                    p <= 0xffff_ffff_ffff_ffff,
            ;
            let wide: u128 = (mag as u128) * (p as u128);
            wide == m as u128
        }
    }
}

/// Zero scaled by a power of two stays zero, and only zero scales to zero.
proof fn lemma_zero_scaled(mag: int, e: int)
    requires
        mag >= 0,
    ensures
        (if e >= 0 {
            0 * pow2(e as nat) == mag
        } else {
            0 == mag * pow2((-e) as nat)
        }) <==> mag == 0,
{
    if e < 0 {
        let p = pow2((-e) as nat);
        vstd::arithmetic::power2::lemma_pow2_pos((-e) as nat);
        assert((mag * p == 0) <==> mag == 0) by (nonlinear_arith)
            requires
                p > 0,
                mag >= 0,
        ;
    }
}

/// A significand that is not zero does not scale to zero.
proof fn lemma_scaled_positive(m: int, e: int)
    requires
        m > 0,
    ensures
        !(if e >= 0 {
            m * pow2(e as nat) == 0
        } else {
            m == 0 * pow2((-e) as nat)
        }),
{
    if e >= 0 {
        let p = pow2(e as nat);
        vstd::arithmetic::power2::lemma_pow2_pos(e as nat);
        assert(m * p > 0) by (nonlinear_arith)
            requires
                m > 0,
                p > 0,
        ;
    }
}

/// The value of two to the power 63.
proof fn lemma2_to64_more()
    ensures
        pow2(63) == 0x8000_0000_0000_0000,
{
    lemma2_to64();
    lemma_pow2_unfold(64);
}

/// A value: null, a truth value, a number, a text, a list of values, or an
/// object whose members are named values.
#[derive(Debug, PartialEq)]
pub enum RuntimeValue {
    Null,
    Boolean(bool),
    Integer(i64),
    Decimal(Decimal),
    String(String),
    List(Vec<RuntimeValue>),
    Object(Vec<(String, RuntimeValue)>),
}

/// What each value of `items` holds.
pub open spec fn items_view(items: Seq<RuntimeValue>) -> Seq<ValueModel>
    decreases items,
{
    Seq::new(
        items.len(),
        |i: int|
            if 0 <= i < items.len() {
                items[i].view()
            } else {
                ValueModel::Null
            },
    )
}

/// What each member of `members` holds.
pub open spec fn members_view(members: Seq<(String, RuntimeValue)>) -> Seq<(Seq<char>, ValueModel)>
    decreases members,
{
    Seq::new(
        members.len(),
        |i: int|
            if 0 <= i < members.len() {
                (members[i].0@, members[i].1.view())
            } else {
                (Seq::empty(), ValueModel::Null)
            },
    )
}

impl View for RuntimeValue {
    type V = ValueModel;

    open spec fn view(&self) -> ValueModel
        decreases self,
    {
        match self {
            RuntimeValue::Null => ValueModel::Null,
            RuntimeValue::Boolean(b) => ValueModel::Boolean(*b),
            RuntimeValue::Integer(i) => ValueModel::Integer(*i as int),
            RuntimeValue::Decimal(d) => ValueModel::Decimal(d.bits),
            RuntimeValue::String(s) => ValueModel::String(s@),
            RuntimeValue::List(items) => ValueModel::List(items_view(items@)),
            RuntimeValue::Object(members) => ValueModel::Object(members_view(members@)),
        }
    }
}

impl Clone for RuntimeValue {
    #[verifier::loop_isolation(false)]
    fn clone(&self) -> (r: Self)
        ensures
            r@ == self@,
        decreases self,
    {
        match self {
            RuntimeValue::Null => RuntimeValue::Null,
            RuntimeValue::Boolean(b) => RuntimeValue::Boolean(*b),
            RuntimeValue::Integer(i) => RuntimeValue::Integer(*i),
            RuntimeValue::Decimal(d) => RuntimeValue::Decimal(*d),
            RuntimeValue::String(s) => RuntimeValue::String(s.clone()),
            RuntimeValue::List(items) => {
                let mut out: Vec<RuntimeValue> = Vec::new();
                let mut i: usize = 0;
                while i < items.len()
                    invariant
                        i <= items.len(),
                        out@.len() == i,
                        forall|k: int| 0 <= k < i ==> out@[k]@ == items@[k]@,
                    decreases items.len() - i,
                {
                    out.push(items[i].clone());
                    i += 1;
                }
                assert(items_view(out@) =~= items_view(items@));
                RuntimeValue::List(out)
            },
            RuntimeValue::Object(members) => {
                let mut out: Vec<(String, RuntimeValue)> = Vec::new();
                let mut i: usize = 0;
                while i < members.len()
                    invariant
                        i <= members.len(),
                        out@.len() == i,
                        forall|k: int|
                            0 <= k < i ==> out@[k].0@ == members@[k].0@ && out@[k].1@
                                == members@[k].1@,
                    decreases members.len() - i,
                {
                    out.push((members[i].0.clone(), members[i].1.clone()));
                    i += 1;
                }
                assert(members_view(out@) =~= members_view(members@));
                RuntimeValue::Object(out)
            },
        }
    }
}

impl RuntimeValue {
    /// Tells whether both values are equal.
    #[verifier::loop_isolation(false)]
    pub fn same(&self, other: &RuntimeValue) -> (r: bool)
        ensures
            r == same_value(self@, other@),
        decreases self,
    {
        match (self, other) {
            (RuntimeValue::Null, RuntimeValue::Null) => true,
            (RuntimeValue::Boolean(x), RuntimeValue::Boolean(y)) => *x == *y,
            (RuntimeValue::Integer(x), RuntimeValue::Integer(y)) => *x == *y,
            (RuntimeValue::Decimal(x), RuntimeValue::Decimal(y)) => x.same(y),
            (RuntimeValue::Integer(x), RuntimeValue::Decimal(y)) => y.denotes(*x),
            (RuntimeValue::Decimal(x), RuntimeValue::Integer(y)) => x.denotes(*y),
            (RuntimeValue::String(x), RuntimeValue::String(y)) => *x == *y,
            (RuntimeValue::List(x), RuntimeValue::List(y)) => {
                assert(self@ == ValueModel::List(items_view(x@)));
                assert(other@ == ValueModel::List(items_view(y@)));
                if x.len() != y.len() {
                    return false;
                }
                let mut i: usize = 0;
                while i < x.len()
                    invariant
                        i <= x.len(),
                        x.len() == y.len(),
                        forall|k: int| 0 <= k < i ==> same_value(x@[k]@, y@[k]@),
                    decreases x.len() - i,
                {
                    if !x[i].same(&y[i]) {
                        assert(self@ == ValueModel::List(items_view(x@)));
                        assert(other@ == ValueModel::List(items_view(y@)));
                        assert(!same_value(items_view(x@)[i as int], items_view(y@)[i as int]));
                        return false;
                    }
                    i += 1;
                }
                assert forall|k: int| 0 <= k < x@.len() implies same_value(
                    #[trigger] items_view(x@)[k],
                    items_view(y@)[k],
                ) by {
                    assert(same_value(x@[k]@, y@[k]@));
                }
                true
            },
            (RuntimeValue::Object(x), RuntimeValue::Object(y)) => {
                let ghost mx = members_view(x@);
                let ghost my = members_view(y@);
                assert(self@ == ValueModel::Object(mx));
                assert(other@ == ValueModel::Object(my));
                assert(keys(mx) =~= names(x@));
                assert(keys(my) =~= names(y@));
                let mut i: usize = 0;
                while i < x.len()
                    invariant
                        i <= x.len(),
                        forall|k: int|
                            #![trigger mx[k]]
                            0 <= k < i && counts(mx, k) ==> member_found(mx, k, my),
                    decreases x.len() - i,
                {
                    assert(mx[i as int] == (x@[i as int].0@, x@[i as int].1@));
                    let first = match find(x, &x[i].0) {
                        Some(f) => f == i,
                        None => false,
                    };
                    assert(first == counts(mx, i as int));
                    if first {
                        let equal = match find(y, &x[i].0) {
                            Some(j) => {
                                assert(my[j as int] == (y@[j as int].0@, y@[j as int].1@));
                                x[i].1.same(&y[j].1)
                            },
                            None => false,
                        };
                        assert(equal == member_found(mx, i as int, my));
                        if !equal {
                            assert(self@ == ValueModel::Object(mx));
                            assert(other@ == ValueModel::Object(my));
                            proof {
                                lemma_member_not_found(mx, my, i as int);
                            }
                            return false;
                        }
                    }
                    i += 1;
                }
                let mut j: usize = 0;
                while j < y.len()
                    invariant
                        j <= y.len(),
                        forall|k: int|
                            #![trigger my[k]]
                            0 <= k < j && counts(my, k) ==> member_finds(mx, my, k),
                    decreases y.len() - j,
                {
                    assert(my[j as int] == (y@[j as int].0@, y@[j as int].1@));
                    let first = match find(y, &y[j].0) {
                        Some(f) => f == j,
                        None => false,
                    };
                    assert(first == counts(my, j as int));
                    if first {
                        let equal = match find(x, &y[j].0) {
                            Some(i) => {
                                assert(mx[i as int] == (x@[i as int].0@, x@[i as int].1@));
                                x[i].1.same(&y[j].1)
                            },
                            None => false,
                        };
                        assert(equal == member_finds(mx, my, j as int));
                        if !equal {
                            assert(self@ == ValueModel::Object(mx));
                            assert(other@ == ValueModel::Object(my));
                            proof {
                                lemma_member_finds_none(mx, my, j as int);
                            }
                            return false;
                        }
                    }
                    j += 1;
                }
                true
            },
            _ => false,
        }
    }
}

/// What an evaluation hands back.
pub enum OutputModel {
    Nothing,
    Identity,
    Transform(ValueModel),
}

/// What a pattern hands back for an input: nothing, the input itself, or a
/// new value.
#[derive(Debug, PartialEq)]
pub enum Output {
    /// No value: the pattern did not match.
    Nothing,
    /// The input, unchanged.
    Identity,
    /// A new value.
    Transform(RuntimeValue),
}

impl View for Output {
    type V = OutputModel;

    open spec fn view(&self) -> OutputModel {
        match self {
            Output::Nothing => OutputModel::Nothing,
            Output::Identity => OutputModel::Identity,
            Output::Transform(value) => OutputModel::Transform(value@),
        }
    }
}

impl Clone for Output {
    fn clone(&self) -> (r: Self)
        ensures
            r@ == self@,
    {
        match self {
            Output::Nothing => Output::Nothing,
            Output::Identity => Output::Identity,
            Output::Transform(value) => Output::Transform(value.clone()),
        }
    }
}

} // verus!
