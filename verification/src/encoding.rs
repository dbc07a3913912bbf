//! The text forms at the library's edge: witness values come in as decimal
//! strings, and the randomness goes out as a JSON array of decimal strings.

use crate::error::Failure;
use crate::field::{modulus, values, Fr};
use ark_bls12_381::Fr as Scalar;
use ark_ff::PrimeField;
use std::str::FromStr;
use vstd::prelude::*;

verus! {

pub open spec fn is_digit(c: char) -> bool {
    '0' <= c <= '9'
}

/// The number that a string of decimal digits stands for.
pub open spec fn decimal_value(s: Seq<char>) -> nat
    decreases s.len(),
{
    if s.len() == 0 {
        0
    } else {
        decimal_value(s.drop_last()) * 10 + (s.last() as nat - '0' as nat) as nat
    }
}

/// A decimal numeral: digits only, at least one, and no leading zero but in
/// the numeral `0` itself.
pub open spec fn is_decimal(s: Seq<char>) -> bool {
    &&& s.len() >= 1
    &&& forall|i: int| 0 <= i < s.len() ==> is_digit(#[trigger] s[i])
    &&& (s.len() == 1 || s[0] != '0')
}

/// The digit for a number below ten.
pub open spec fn digit(d: nat) -> char {
    if d == 0 {
        '0'
    } else if d == 1 {
        '1'
    } else if d == 2 {
        '2'
    } else if d == 3 {
        '3'
    } else if d == 4 {
        '4'
    } else if d == 5 {
        '5'
    } else if d == 6 {
        '6'
    } else if d == 7 {
        '7'
    } else if d == 8 {
        '8'
    } else {
        '9'
    }
}

/// The decimal numeral of a number.
pub open spec fn decimal_digits(n: nat) -> Seq<char>
    decreases n,
{
    if n < 10 {
        seq![digit(n)]
    } else {
        decimal_digits(n / 10).push(digit(n % 10))
    }
}

/// A numeral is made of digits, starts with a zero only if it is `0`, and
/// stands for the number it was written for: what is written out is read
/// back as the same number.
pub proof fn lemma_decimal_digits(n: nat)
    ensures
        decimal_digits(n).len() >= 1,
        forall|j: int| 0 <= j < decimal_digits(n).len() ==> is_digit(#[trigger] decimal_digits(n)[j]),
        n >= 1 ==> decimal_digits(n)[0] != '0',
        is_decimal(decimal_digits(n)),
        decimal_value(decimal_digits(n)) == n,
    decreases n,
{
    let text = decimal_digits(n);
    if n >= 10 {
        lemma_decimal_digits(n / 10);
        let front = decimal_digits(n / 10);
        assert(text.drop_last() =~= front);
        assert(text.last() == digit(n % 10));
        assert(text[0] == front[0]);
        assert(digit(n % 10) as nat - '0' as nat == n % 10);
    } else {
        assert(text.drop_last() =~= Seq::<char>::empty());
        assert(text.last() == digit(n));
        assert(digit(n) as nat - '0' as nat == n);
        reveal_with_fuel(decimal_value, 2);
    }
}

/// The texts of a list of strings.
pub open spec fn texts(items: Seq<String>) -> Seq<Seq<char>> {
    Seq::new(items.len(), |i: int| items[i]@)
}

/// The items between double quotes, with a comma before each but the first.
pub open spec fn quoted_items(items: Seq<Seq<char>>) -> Seq<char>
    decreases items.len(),
{
    if items.len() == 0 {
        Seq::empty()
    } else if items.len() == 1 {
        seq!['"'] + items[0] + seq!['"']
    } else {
        quoted_items(items.drop_last()) + seq![',', '"'] + items.last() + seq!['"']
    }
}

/// The JSON text of an array of strings that need no escaping: the quoted
/// items between square brackets, without blanks.
pub open spec fn json_text(items: Seq<Seq<char>>) -> Seq<char> {
    seq!['['] + quoted_items(items) + seq![']']
}

/// Whether every item is made of decimal digits alone.
pub open spec fn all_digits(items: Seq<Seq<char>>) -> bool {
    forall|i: int, j: int|
        0 <= i < items.len() && 0 <= j < items[i].len() ==> is_digit(#[trigger] items[i][j])
}

/// Why JSON could not be written.
#[verifier::external_type_specification]
#[verifier::external_body]
pub struct ExJsonError(serde_json::Error);

/// `FromStr` for `ark_bls12_381::Fr`: a decimal numeral is read as the
/// number it stands for, reduced; anything else is refused.
#[verifier::external_body]
fn field_from_str(s: &str) -> (r: Option<Fr>)
    ensures
        r.is_some() <==> is_decimal(s@),
        r.is_some() ==> r.unwrap().value() == decimal_value(s@) % modulus(),
{
    match Scalar::from_str(s) {
        Ok(x) => {
            let l = x.into_repr().0;
            Some(Fr { l0: l[0], l1: l[1], l2: l[2], l3: l[3] })
        },
        Err(_) => None,
    }
}

/// `ToString` for `u16`: the decimal numeral.
#[verifier::external_body]
fn decimal_string(n: u16) -> (s: String)
    ensures
        s@ == decimal_digits(n as nat),
{
    n.to_string()
}

/// `serde_json::to_string` on a list of strings of digits: the compact JSON
/// array of them. Strings always serialise, and digits are written as they
/// are.
#[verifier::external_body]
fn json_string_array(items: &Vec<String>) -> (r: Result<String, serde_json::Error>)
    requires
        all_digits(texts(items@)),
    ensures
        r.is_ok(),
        r.unwrap()@ == json_text(texts(items@)),
{
    serde_json::to_string(items)
}

/// The field element that a decimal numeral stands for.
pub fn field_from_decimal(s: &str) -> (r: Option<Fr>)
    ensures
        r.is_some() <==> is_decimal(s@),
        r.is_some() ==> r.unwrap().value() == decimal_value(s@) % modulus(),
{
    field_from_str(s)
}

/// The values that a list of numerals stands for.
pub open spec fn parsed_values(items: Seq<String>) -> Seq<nat> {
    Seq::new(items.len(), |i: int| decimal_value(items[i]@) % modulus())
}

/// Reads a witness from decimal numerals. One entry that is no numeral
/// spoils the whole witness.
pub fn parse_witness(items: &Vec<String>) -> (r: Result<Vec<Fr>, Failure>)
    ensures
        r.is_ok() <==> forall|i: int| 0 <= i < items@.len() ==> is_decimal(#[trigger] items@[i]@),
        r.is_ok() ==> values(r.unwrap()@) == parsed_values(items@),
        r.is_err() ==> r.unwrap_err() == Failure::MalformedWitness,
{
    let mut out: Vec<Fr> = Vec::new();
    let mut i: usize = 0;
    while i < items.len()
        invariant
            i <= items@.len(),
            out@.len() == i,
            forall|j: int| 0 <= j < i ==> is_decimal(#[trigger] items@[j]@),
            forall|j: int|
                0 <= j < i ==> (#[trigger] out@[j]).value() == decimal_value(items@[j]@)
                    % modulus(),
        decreases items@.len() - i,
    {
        match field_from_decimal(items[i].as_str()) {
            Some(f) => {
                out.push(f);
            },
            None => {
                assert(!is_decimal(items@[i as int]@));
                return Err(Failure::MalformedWitness);
            },
        }
        i += 1;
    }
    assert(values(out@) =~= parsed_values(items@));
    Ok(out)
}

/// The numerals of the randomness values, in order.
pub open spec fn numerals(rand: Seq<u16>) -> Seq<Seq<char>> {
    Seq::new(rand.len(), |i: int| decimal_digits(rand[i] as nat))
}

/// The randomness as a JSON array of decimal strings, the form in which it
/// is kept for inspection and replay.
pub fn poso_rand_json(poso_rand: &Vec<u16>) -> (text: String)
    ensures
        text@ == json_text(numerals(poso_rand@)),
{
    let mut items: Vec<String> = Vec::new();
    let mut i: usize = 0;
    while i < poso_rand.len()
        invariant
            i <= poso_rand@.len(),
            items@.len() == i,
            forall|j: int|
                0 <= j < i ==> (#[trigger] items@[j])@ == decimal_digits(poso_rand@[j] as nat),
        decreases poso_rand@.len() - i,
    {
        items.push(decimal_string(poso_rand[i]));
        i += 1;
    }
    assert(texts(items@) =~= numerals(poso_rand@));
    assert(all_digits(texts(items@))) by {
        assert forall|i: int, j: int|
            0 <= i < texts(items@).len() && 0 <= j < texts(items@)[i].len() implies is_digit(
            #[trigger] texts(items@)[i][j],
        ) by {
            lemma_decimal_digits(poso_rand@[i] as nat);
        }
    }
    match json_string_array(&items) {
        Ok(text) => text,
        Err(_) => String::new(),
    }
}

} // verus!
