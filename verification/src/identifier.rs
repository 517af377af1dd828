//! Random identifiers in hexadecimal.

use vstd::prelude::*;

verus! {

/// A digit of a hexadecimal number in lower case.
pub open spec fn hex_char(n: nat) -> char {
    if n < 10 {
        (48 + n) as char
    } else {
        (87 + n) as char
    }
}

/// The last `width` digits of a number in hexadecimal.
pub open spec fn hex_digits(n: nat, width: nat) -> Seq<char>
    decreases width,
{
    if width == 0 {
        Seq::empty()
    } else {
        hex_digits(n / 16, (width - 1) as nat).push(hex_char(n % 16))
    }
}

fn hex_char_of(n: u8) -> (r: char)
    requires
        n < 16,
    ensures
        r == hex_char(n as nat),
{
    if n < 10 {
        (48 + n) as char
    } else {
        (87 + n) as char
    }
}

/// The last `width` digits of a number in hexadecimal.
pub fn hex_text(n: u128, width: usize) -> (r: String)
    ensures
        r@ == hex_digits(n as nat, width as nat),
    decreases width,
{
    if width == 0 {
        let r = String::new();
        proof {
            assert(r@ =~= Seq::<char>::empty());
        }
        r
    } else {
        let mut r = hex_text(n / 16, width - 1);
        let d: u8 = (n % 16) as u8;
        r.push(hex_char_of(d));
        r
    }
}

/// `rand::random` for a `u128`. Any number may come.
#[verifier::external_body]
fn random_wide() -> u128 {
    rand::random::<u128>()
}

/// `rand::random` for a `u64`. Any number may come.
#[verifier::external_body]
fn random_number() -> u64 {
    rand::random::<u64>()
}

/// The identifier that a number makes: 32 digits.
pub fn long_identifier(n: u128) -> (r: String)
    ensures
        r@ == hex_digits(n as nat, 32),
{
    hex_text(n, 32)
}

/// The identifier that a number makes: 16 digits.
pub fn short_identifier(n: u64) -> (r: String)
    ensures
        r@ == hex_digits(n as nat, 16),
{
    hex_text(n as u128, 16)
}

/// An identifier of 32 random digits.
pub fn random_long_identifier() -> (r: String)
    ensures
        exists|n: u128| r@ == #[trigger] hex_digits(n as nat, 32),
{
    let n: u128 = random_wide();
    let r = long_identifier(n);
    proof {
        assert(r@ == hex_digits(n as nat, 32));
    }
    r
}

/// An identifier of 16 random digits.
pub fn random_short_identifier() -> (r: String)
    ensures
        exists|n: u64| r@ == #[trigger] hex_digits(n as nat, 16),
{
    let n: u64 = random_number();
    let r = short_identifier(n);
    proof {
        assert(r@ == hex_digits(n as nat, 16));
    }
    r
}

/// Different numbers make different identifiers.
pub proof fn law_identifiers_are_distinct(a: nat, b: nat, width: nat)
    requires
        hex_digits(a, width) == hex_digits(b, width),
        a < vstd::arithmetic::power::pow(16, width),
        b < vstd::arithmetic::power::pow(16, width),
    ensures
        a == b,
    decreases width,
{
    reveal(vstd::arithmetic::power::pow);
    if width > 0 {
        let x = hex_digits(a, width);
        let y = hex_digits(b, width);
        assert(x.drop_last() =~= hex_digits(a / 16, (width - 1) as nat));
        assert(y.drop_last() =~= hex_digits(b / 16, (width - 1) as nat));
        assert(x.last() == hex_char(a % 16));
        assert(y.last() == hex_char(b % 16));
        assert(vstd::arithmetic::power::pow(16, width) == 16 * vstd::arithmetic::power::pow(
            16,
            (width - 1) as nat,
        ));
        law_identifiers_are_distinct(a / 16, b / 16, (width - 1) as nat);
        assert(hex_char(a % 16) as u32 == hex_char(b % 16) as u32);
    }
}

} // verus!
