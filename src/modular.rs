//! Integers modulo a modulus fixed in the type.
use vstd::arithmetic::div_mod::{lemma_fundamental_div_mod, lemma_fundamental_div_mod_converse};
use vstd::prelude::*;
use vstd::string::StringExecFns;

verus! {

/// Reduces `v` to its canonical representative in `[0, m)`.
///
/// Works on `i128` so that the sum, difference and product of two residues of
/// an `i64` modulus never overflow.
fn reduce(v: i128, m: i128) -> (r: i64)
    requires
        0 < m <= i64::MAX,
        -0x1_0000_0000_0000_0000_0000_0000_0000 < v,
    ensures
        r == v % m,
{
    if v >= 0 {
        (v % m) as i64
    } else {
        let a: i128 = -v;
        let rem: i128 = a % m;
        let ghost q: int = a as int / m as int;
        proof {
            lemma_fundamental_div_mod(a as int, m as int);
            assert(v == (-q) * m - rem) by (nonlinear_arith)
                requires
                    a == m * q + rem,
                    v == -a,
            ;
            assert(v == (-q - 1) * m + (m - rem)) by (nonlinear_arith)
                requires
                    v == (-q) * m - rem,
            ;
        }
        if rem == 0 {
            proof {
                lemma_fundamental_div_mod_converse(v as int, m as int, -q, 0);
            }
            0
        } else {
            proof {
                lemma_fundamental_div_mod_converse(v as int, m as int, -q - 1, m - rem);
            }
            (m - rem) as i64
        }
    }
}

/// An integer modulo `M`, held by its canonical representative in `[0, M)`.
///
/// The modulus must be positive and fit in an `i64`; values can only be built
/// through [`Modular::new`], which asks for that.
#[derive(Debug, Clone, Copy, PartialEq, Eq)]
pub struct Modular<const M: u64>(i64);

impl<const M: u64> Modular<M> {
    #[verifier::type_invariant]
    spec fn inv(self) -> bool {
        &&& 0 < M <= i64::MAX
        &&& 0 <= self.0 < M
    }

    /// The represented residue, in `[0, M)`.
    pub closed spec fn spec_value(self) -> int {
        self.0 as int
    }

    /// Reduces `val` modulo `M`; negative values wrap to the top of the range.
    pub fn new(val: i64) -> (r: Self)
        requires
            0 < M <= i64::MAX,
        ensures
            r.spec_value() == val as int % M as int,
    {
        Modular(reduce(val as i128, M as i128))
    }

    pub fn value(&self) -> (r: i64)
        ensures
            r == self.spec_value(),
            0 <= r < M,
    {
        proof {
            use_type_invariant(self);
        }
        self.0
    }
}

impl<const M: u64> Modular<M> {
    /// The residue of `v` modulo `M`.
    pub closed spec fn from_int(v: int) -> Self {
        Modular((v % M as int) as i64)
    }
}

impl<const M: u64> std::ops::Add for Modular<M> {
    type Output = Self;

    fn add(self, rhs: Self) -> (r: Self)
        ensures
            r.spec_value() == (self.spec_value() + rhs.spec_value()) % M as int,
    {
        proof {
            use_type_invariant(self);
            use_type_invariant(rhs);
        }
        Modular(reduce(self.0 as i128 + rhs.0 as i128, M as i128))
    }
}

impl<const M: u64> vstd::std_specs::ops::AddSpecImpl for Modular<M> {
    open spec fn obeys_add_spec() -> bool {
        true
    }

    open spec fn add_req(self, rhs: Self) -> bool {
        true
    }

    open spec fn add_spec(self, rhs: Self) -> Self {
        Self::from_int(self.spec_value() + rhs.spec_value())
    }
}

impl<const M: u64> std::ops::Sub for Modular<M> {
    type Output = Self;

    fn sub(self, rhs: Self) -> (r: Self)
        ensures
            r.spec_value() == (self.spec_value() - rhs.spec_value()) % M as int,
    {
        proof {
            use_type_invariant(self);
            use_type_invariant(rhs);
        }
        Modular(reduce(self.0 as i128 - rhs.0 as i128, M as i128))
    }
}

impl<const M: u64> vstd::std_specs::ops::SubSpecImpl for Modular<M> {
    open spec fn obeys_sub_spec() -> bool {
        true
    }

    open spec fn sub_req(self, rhs: Self) -> bool {
        true
    }

    open spec fn sub_spec(self, rhs: Self) -> Self {
        Self::from_int(self.spec_value() - rhs.spec_value())
    }
}

impl<const M: u64> std::ops::Mul for Modular<M> {
    type Output = Self;

    fn mul(self, rhs: Self) -> (r: Self)
        ensures
            r.spec_value() == (self.spec_value() * rhs.spec_value()) % M as int,
    {
        proof {
            use_type_invariant(self);
            use_type_invariant(rhs);
            assert(0 <= self.0 as int * rhs.0 as int <= i64::MAX as int * i64::MAX as int)
                by (nonlinear_arith)
                requires
                    0 <= self.0 <= i64::MAX,
                    0 <= rhs.0 <= i64::MAX,
            ;
        }
        Modular(reduce(self.0 as i128 * rhs.0 as i128, M as i128))
    }
}

impl<const M: u64> vstd::std_specs::ops::MulSpecImpl for Modular<M> {
    open spec fn obeys_mul_spec() -> bool {
        true
    }

    open spec fn mul_req(self, rhs: Self) -> bool {
        true
    }

    open spec fn mul_spec(self, rhs: Self) -> Self {
        Self::from_int(self.spec_value() * rhs.spec_value())
    }
}

/// The character of decimal digit `d`.
pub open spec fn digit_char(d: int) -> char {
    if d == 0 {
        '0'
    } else if d == 1 {
        '1'
    } else if d == 2 {
        '2'
    } else if d == 3 {
        '3'
    } else if d == 4 {
        '4'
    } else if d == 5 {
        '5'
    } else if d == 6 {
        '6'
    } else if d == 7 {
        '7'
    } else if d == 8 {
        '8'
    } else {
        '9'
    }
}

/// The decimal numeral of `v`, without leading zeros.
pub open spec fn decimal(v: nat) -> Seq<char>
    decreases v,
{
    if v < 10 {
        seq![digit_char(v as int)]
    } else {
        decimal(v / 10).push(digit_char((v % 10) as int))
    }
}

fn digit_str(d: u64) -> (r: &'static str)
    requires
        d < 10,
    ensures
        r@ == seq![digit_char(d as int)],
{
    proof {
        reveal_strlit("0");
        reveal_strlit("1");
        reveal_strlit("2");
        reveal_strlit("3");
        reveal_strlit("4");
        reveal_strlit("5");
        reveal_strlit("6");
        reveal_strlit("7");
        reveal_strlit("8");
        reveal_strlit("9");
    }
    match d {
        0 => "0",
        1 => "1",
        2 => "2",
        3 => "3",
        4 => "4",
        5 => "5",
        6 => "6",
        7 => "7",
        8 => "8",
        _ => "9",
    }
}

/// Appends the decimal numeral of `v` to `out`.
fn write_decimal(v: u64, out: &mut String)
    ensures
        final(out)@ == old(out)@ + decimal(v as nat),
    decreases v,
{
    if v >= 10 {
        write_decimal(v / 10, out);
    }
    out.append(digit_str(v % 10));
    assert(final(out)@ =~= old(out)@ + decimal(v as nat));
}

impl<const M: u64> Modular<M> {
    /// The residue written in decimal.
    pub fn to_string(&self) -> (r: String)
        ensures
            r@ == decimal(self.spec_value() as nat),
    {
        proof {
            use_type_invariant(self);
        }
        let mut out = String::new();
        write_decimal(self.0 as u64, &mut out);
        assert(out@ =~= decimal(self.spec_value() as nat));
        out
    }
}

} // verus!
