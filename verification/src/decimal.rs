//! Fixed-point numbers with 18 fractional digits.
use vstd::arithmetic::div_mod::{lemma_div_is_ordered, lemma_div_multiples_vanish};
use vstd::prelude::*;

verus! {

/// `cosmwasm_std::CheckedMultiplyFractionError`, the error of a product that
/// does not fit. Nothing inside it is read here.
#[verifier::external_type_specification]
#[verifier::external_body]
pub struct ExCheckedMultiplyFractionError(cosmwasm_std::CheckedMultiplyFractionError);

/// How many atomic units make one whole: ten to the eighteenth.
pub const DECIMAL_FRACTIONAL: u128 = 1_000_000_000_000_000_000;

/// A non-negative number with 18 fractional digits, held as its count of
/// atomic units: the number is `atomics / 10^18`.
#[derive(Clone, Copy, Debug, PartialEq, Eq, Structural)]
pub struct Decimal {
    pub atomics: u128,
}

/// The atomic units of the decimal that a text denotes, where it denotes one.
pub uninterp spec fn decimal_text_atomics(text: Seq<char>) -> Option<u128>;

/// `amount` times `atomics / 10^18`, rounded down.
pub open spec fn floor_of_product(amount: nat, atomics: nat) -> nat {
    (amount * atomics) / (DECIMAL_FRACTIONAL as nat)
}

/// `<cosmwasm_std::Decimal as FromStr>::from_str`, with the parsed value
/// handed out as its atomic units. Whether a text parses, and to what,
/// depends on the text alone.
#[verifier::external_body]
fn parse_atomics(text: &str) -> (r: Result<u128, cosmwasm_std::StdError>)
    ensures
        match r {
            Ok(a) => decimal_text_atomics(text@) == Some(a),
            Err(_) => decimal_text_atomics(text@).is_none(),
        },
{
    match <cosmwasm_std::Decimal as std::str::FromStr>::from_str(text) {
        Ok(d) => Ok(d.atomics().u128()),
        Err(e) => Err(e),
    }
}

/// `cosmwasm_std::Decimal::checked_add` on two decimals given by their
/// atomic units: the sum where it fits, an overflow error where it does not.
#[verifier::external_body]
fn add_atomics(a: u128, b: u128) -> (r: Result<u128, cosmwasm_std::StdError>)
    ensures
        match r {
            Ok(s) => s == a + b,
            Err(_) => a + b > u128::MAX,
        },
{
    match cosmwasm_std::Decimal::raw(a).checked_add(cosmwasm_std::Decimal::raw(b)) {
        Ok(d) => Ok(d.atomics().u128()),
        Err(e) => Err(cosmwasm_std::StdError::from(e)),
    }
}

/// `cosmwasm_std::Uint128::checked_mul_floor` with a decimal as the
/// fraction: the product rounded down where it fits in 128 bits, an error
/// where it does not. The product itself is formed in 256 bits.
#[verifier::external_body]
fn mul_floor_atomics(amount: u128, atomics: u128) -> (r: Result<
    u128,
    cosmwasm_std::CheckedMultiplyFractionError,
>)
    ensures
        match r {
            Ok(p) => p == floor_of_product(amount as nat, atomics as nat),
            Err(_) => floor_of_product(amount as nat, atomics as nat) > u128::MAX,
        },
{
    match cosmwasm_std::Uint128::new(amount).checked_mul_floor(cosmwasm_std::Decimal::raw(atomics)) {
        Ok(p) => Ok(p.u128()),
        Err(e) => Err(e),
    }
}

/// A share of at most the whole never exceeds the amount it is taken of.
pub proof fn lemma_share_bounded(amount: nat, atomics: nat)
    requires
        atomics <= DECIMAL_FRACTIONAL,
    ensures
        floor_of_product(amount, atomics) <= amount,
{
    let d = DECIMAL_FRACTIONAL as int;
    assert(amount * atomics <= amount * d) by (nonlinear_arith)
        requires
            atomics <= d,
    ;
    lemma_div_is_ordered((amount * atomics) as int, amount * d, d);
    lemma_div_multiples_vanish(amount as int, d);
    assert(amount * d == d * amount) by (nonlinear_arith);
}

impl Decimal {
    /// The number zero.
    pub fn zero() -> (d: Self)
        ensures
            d.atomics == 0,
    {
        Decimal { atomics: 0 }
    }

    /// The number one.
    pub fn one() -> (d: Self)
        ensures
            d.atomics == DECIMAL_FRACTIONAL,
    {
        Decimal { atomics: DECIMAL_FRACTIONAL }
    }

    /// The decimal with the given count of atomic units.
    pub fn raw(atomics: u128) -> (d: Self)
        ensures
            d.atomics == atomics,
    {
        Decimal { atomics }
    }

    /// `x` hundredths.
    pub fn percent(x: u64) -> (d: Self)
        ensures
            d.atomics == x * 10_000_000_000_000_000,
    {
        let wide: u128 = x as u128;
        Decimal { atomics: wide * 10_000_000_000_000_000 }
    }

    /// The count of atomic units.
    pub fn atomics(&self) -> (a: u128)
        ensures
            a == self.atomics,
    {
        self.atomics
    }

    /// Whether the number is zero.
    pub fn is_zero(&self) -> (z: bool)
        ensures
            z == (self.atomics == 0),
    {
        self.atomics == 0
    }

    /// Whether the number is at most one.
    pub fn is_fraction(&self) -> (f: bool)
        ensures
            f == (self.atomics <= DECIMAL_FRACTIONAL),
    {
        self.atomics <= DECIMAL_FRACTIONAL
    }

    /// Reads a decimal from text such as `"1.23"`: the value that the text
    /// denotes, or the parser's error where it denotes none.
    pub fn from_str(text: &str) -> (r: Result<Self, cosmwasm_std::StdError>)
        ensures
            match r {
                Ok(d) => decimal_text_atomics(text@) == Some(d.atomics),
                Err(_) => decimal_text_atomics(text@).is_none(),
            },
    {
        match parse_atomics(text) {
            Ok(a) => Ok(Decimal { atomics: a }),
            Err(e) => Err(e),
        }
    }

    /// The sum of two decimals, or an overflow error where it exceeds the
    /// largest decimal.
    pub fn checked_add(self, other: Self) -> (r: Result<Self, cosmwasm_std::StdError>)
        ensures
            match r {
                Ok(d) => d.atomics == self.atomics + other.atomics,
                Err(_) => self.atomics + other.atomics > u128::MAX,
            },
    {
        match add_atomics(self.atomics, other.atomics) {
            Ok(a) => Ok(Decimal { atomics: a }),
            Err(e) => Err(e),
        }
    }

    /// `amount` times this number, rounded down; `None` where the product
    /// exceeds `u128`.
    pub fn mul_floor(self, amount: u128) -> (r: Option<u128>)
        ensures
            match r {
                Some(p) => p == floor_of_product(amount as nat, self.atomics as nat),
                None => floor_of_product(amount as nat, self.atomics as nat) > u128::MAX,
            },
    {
        match mul_floor_atomics(amount, self.atomics) {
            Ok(p) => Some(p),
            Err(_) => None,
        }
    }

    /// The share `self` of `amount`, rounded down, for a number that is at
    /// most one.
    pub(crate) fn share_of(self, amount: u128) -> (p: u128)
        requires
            self.atomics <= DECIMAL_FRACTIONAL,
        ensures
            p == floor_of_product(amount as nat, self.atomics as nat),
            p <= amount,
    {
        proof {
            lemma_share_bounded(amount as nat, self.atomics as nat);
        }
        match mul_floor_atomics(amount, self.atomics) {
            Ok(p) => p,
            Err(_) => 0,
        }
    }
}

} // verus!
