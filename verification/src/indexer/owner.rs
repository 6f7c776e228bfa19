//! Tokens by which a process owns a run.
use crate::hashing::hex_digit;
use vstd::prelude::*;

verus! {

/// `rand::random`: some number; nothing is known of it.
#[verifier::external_body]
fn random_number() -> u128 {
    rand::random::<u128>()
}

/// The last `digits` hexadecimal digits of a number, with zeros in front.
pub open spec fn padded_hex(n: nat, digits: nat) -> Seq<char>
    decreases digits,
{
    if digits == 0 {
        Seq::empty()
    } else {
        padded_hex(n / 16, (digits - 1) as nat).push(hex_digit((n % 16) as int))
    }
}

fn hex_char(d: u8) -> (r: char)
    requires
        d < 16,
    ensures
        r == hex_digit(d as int),
{
    if d < 10 {
        (48u8 + d) as char
    } else {
        (87u8 + d) as char
    }
}

fn write_padded(n: u128, digits: u8) -> (r: String)
    ensures
        r@ == padded_hex(n as nat, digits as nat),
    decreases digits,
{
    if digits == 0 {
        String::new()
    } else {
        let mut out = write_padded(n / 16, digits - 1);
        out.push(hex_char((n % 16) as u8));
        out
    }
}

/// The token of a number: its 32 hexadecimal digits.
pub fn token_of(n: u128) -> (r: String)
    ensures
        r@ == padded_hex(n as nat, 32),
{
    write_padded(n, 32)
}

/// A new token: that of a random number.
pub fn owner_token() -> (r: String)
    ensures
        exists|n: u128| r@ == #[trigger] padded_hex(n as nat, 32),
{
    let n: u128 = random_number();
    token_of(n)
}

proof fn padded_hex_has_its_length(n: nat, digits: nat)
    ensures
        padded_hex(n, digits).len() == digits,
    decreases digits,
{
    if digits > 0 {
        padded_hex_has_its_length(n / 16, (digits - 1) as nat);
    }
}

proof fn padded_hex_is_exact(a: nat, b: nat, digits: nat)
    requires
        padded_hex(a, digits) == padded_hex(b, digits),
        a < vstd::arithmetic::power::pow(16, digits),
        b < vstd::arithmetic::power::pow(16, digits),
    ensures
        a == b,
    decreases digits,
{
    reveal(vstd::arithmetic::power::pow);
    if digits > 0 {
        let x = padded_hex(a, digits);
        let y = padded_hex(b, digits);
        assert(x.drop_last() =~= padded_hex(a / 16, (digits - 1) as nat));
        assert(y.drop_last() =~= padded_hex(b / 16, (digits - 1) as nat));
        assert(x.last() == hex_digit((a % 16) as int));
        assert(y.last() == hex_digit((b % 16) as int));
        assert(vstd::arithmetic::power::pow(16, digits) == 16 * vstd::arithmetic::power::pow(
            16,
            (digits - 1) as nat,
        ));
        padded_hex_is_exact(a / 16, b / 16, (digits - 1) as nat);
    }
}

/// Different numbers have different tokens, all of the same length.
pub proof fn tokens_tell_numbers_apart(a: u128, b: u128)
    ensures
        padded_hex(a as nat, 32).len() == 32,
        padded_hex(a as nat, 32) == padded_hex(b as nat, 32) ==> a == b,
{
    padded_hex_has_its_length(a as nat, 32);
    if padded_hex(a as nat, 32) == padded_hex(b as nat, 32) {
        assert(vstd::arithmetic::power::pow(16, 32)
            == 0x1_0000_0000_0000_0000_0000_0000_0000_0000int) by {
            reveal_with_fuel(vstd::arithmetic::power::pow, 33);
        }
        padded_hex_is_exact(a as nat, b as nat, 32);
    }
}

} // verus!
