use vstd::prelude::*;
use vstd::arithmetic::div_mod::{
    lemma_div_decreases, lemma_div_is_ordered, lemma_fundamental_div_mod,
};

verus! {

// The alias generator mints short tokens for new records: the milliseconds
// since the Unix epoch, written in base 62 with the digits 0-9, A-Z, a-z,
// most significant digit first.

/// The byte of the base-62 digit with value `d`: `0`-`9`, then `A`-`Z`,
/// then `a`-`z`.
pub open spec fn b62_digit(d: nat) -> u8
    recommends
        d < 62,
{
    if d < 10 {
        (0x30 + d) as u8
    } else if d < 36 {
        (0x41 + (d - 10)) as u8
    } else {
        (0x61 + (d - 36)) as u8
    }
}

/// Whether `b` is the byte of some base-62 digit.
pub open spec fn is_b62_digit(b: u8) -> bool {
    (0x30 <= b <= 0x39) || (0x41 <= b <= 0x5a) || (0x61 <= b <= 0x7a)
}

/// The base-62 digit bytes of `n`, most significant first, with no leading
/// zeros except for `n == 0`, which is the single digit `0`.
pub open spec fn b62_bytes(n: nat) -> Seq<u8>
    decreases n,
{
    if n < 62 {
        seq![b62_digit(n)]
    } else {
        b62_bytes(n / 62).push(b62_digit(n % 62))
    }
}

/// The base-62 encoding of `n` as characters.
pub open spec fn b62_chars(n: nat) -> Seq<char> {
    b62_bytes(n).map_values(|b: u8| b as char)
}

/// Shortlex order on digit strings: a shorter string comes first, and equal
/// lengths compare digit by digit from the most significant end. On base-62
/// encodings this is exactly the numeric order of the encoded values.
pub open spec fn b62_lt(a: Seq<u8>, b: Seq<u8>) -> bool
    decreases a.len(),
{
    if a.len() < b.len() {
        true
    } else if a.len() > b.len() {
        false
    } else if a.len() == 0 {
        false
    } else if a[0] != b[0] {
        a[0] < b[0]
    } else {
        b62_lt(a.drop_first(), b.drop_first())
    }
}

/// Every byte of a base-62 encoding is a base-62 digit, so the generated
/// aliases are base-62 strings.
pub proof fn lemma_b62_bytes_are_digits(n: nat)
    ensures
        b62_bytes(n).len() >= 1,
        forall|i: int| 0 <= i < b62_bytes(n).len() ==> is_b62_digit(#[trigger] b62_bytes(n)[i]),
    decreases n,
{
    if n < 62 {
    } else {
        lemma_div_decreases(n as int, 62);
        lemma_b62_bytes_are_digits(n / 62);
        assert(b62_bytes(n) == b62_bytes(n / 62).push(b62_digit(n % 62)));
        assert(0 <= n % 62 < 62) by {
            lemma_fundamental_div_mod(n as int, 62);
        }
    }
}

proof fn lemma_b62_lt_push_eq(p: Seq<u8>, x: u8, y: u8)
    requires
        x < y,
    ensures
        b62_lt(p.push(x), p.push(y)),
    decreases p.len(),
{
    if p.len() == 0 {
        assert(p.push(x)[0] == x);
        assert(p.push(y)[0] == y);
    } else {
        assert(p.push(x)[0] == p[0]);
        assert(p.push(y)[0] == p[0]);
        lemma_b62_lt_push_eq(p.drop_first(), x, y);
        assert(p.push(x).drop_first() =~= p.drop_first().push(x));
        assert(p.push(y).drop_first() =~= p.drop_first().push(y));
    }
}

proof fn lemma_b62_lt_push(a: Seq<u8>, b: Seq<u8>, x: u8, y: u8)
    requires
        b62_lt(a, b),
    ensures
        b62_lt(a.push(x), b.push(y)),
    decreases a.len(),
{
    if a.len() < b.len() {
    } else {
        // b62_lt with equal lengths: walk to the first differing digit.
        if a[0] != b[0] {
            assert(a.push(x)[0] == a[0]);
            assert(b.push(y)[0] == b[0]);
        } else {
            lemma_b62_lt_push(a.drop_first(), b.drop_first(), x, y);
            assert(a.push(x).drop_first() =~= a.drop_first().push(x));
            assert(b.push(y).drop_first() =~= b.drop_first().push(y));
        }
    }
}

/// Monotonicity of the encoding: a smaller value encodes strictly below a
/// larger one in shortlex order, so for increasing timestamps the generated
/// aliases come out in the same order.
pub proof fn lemma_b62_monotonic(m: nat, n: nat)
    requires
        m < n,
    ensures
        b62_lt(b62_bytes(m), b62_bytes(n)),
    decreases n,
{
    if n < 62 {
        assert(b62_digit(m) < b62_digit(n));
    } else if m < 62 {
        lemma_b62_bytes_are_digits(n / 62);
        assert(b62_bytes(n).len() >= 2);
    } else {
        lemma_fundamental_div_mod(m as int, 62);
        lemma_fundamental_div_mod(n as int, 62);
        lemma_div_is_ordered(m as int, n as int, 62);
        lemma_div_decreases(n as int, 62);
        if m / 62 == n / 62 {
            assert(m % 62 < n % 62);
            lemma_b62_lt_push_eq(b62_bytes(m / 62), b62_digit(m % 62), b62_digit(n % 62));
        } else {
            lemma_b62_monotonic(m / 62, n / 62);
            lemma_b62_lt_push(
                b62_bytes(m / 62),
                b62_bytes(n / 62),
                b62_digit(m % 62),
                b62_digit(n % 62),
            );
        }
    }
}

/// Shortlex order on the alias strings themselves: a shorter string comes
/// first, and equal lengths compare character by character.
pub open spec fn alias_lt(a: Seq<char>, b: Seq<char>) -> bool
    decreases a.len(),
{
    if a.len() < b.len() {
        true
    } else if a.len() > b.len() {
        false
    } else if a.len() == 0 {
        false
    } else if a[0] != b[0] {
        (a[0] as u32) < (b[0] as u32)
    } else {
        alias_lt(a.drop_first(), b.drop_first())
    }
}

proof fn lemma_b62_lt_to_chars(a: Seq<u8>, b: Seq<u8>)
    requires
        b62_lt(a, b),
    ensures
        alias_lt(a.map_values(|x: u8| x as char), b.map_values(|x: u8| x as char)),
    decreases a.len(),
{
    let ca = a.map_values(|x: u8| x as char);
    let cb = b.map_values(|x: u8| x as char);
    if a.len() < b.len() {
    } else if a[0] != b[0] {
        assert(ca[0] == a[0] as char);
        assert(cb[0] == b[0] as char);
    } else {
        lemma_b62_lt_to_chars(a.drop_first(), b.drop_first());
        assert(ca.drop_first() =~= a.drop_first().map_values(|x: u8| x as char));
        assert(cb.drop_first() =~= b.drop_first().map_values(|x: u8| x as char));
        assert(ca[0] == cb[0]);
    }
}

/// Monotonicity at the string level: for increasing timestamps the minted
/// alias strings come out in the same order, under shortlex order.
pub proof fn lemma_alias_strings_ordered(m: nat, n: nat)
    requires
        m < n,
    ensures
        alias_lt(b62_chars(m), b62_chars(n)),
{
    lemma_b62_monotonic(m, n);
    lemma_b62_lt_to_chars(b62_bytes(m), b62_bytes(n));
}

proof fn lemma_b62_lt_irreflexive(a: Seq<u8>)
    ensures
        !b62_lt(a, a),
    decreases a.len(),
{
    if a.len() > 0 {
        lemma_b62_lt_irreflexive(a.drop_first());
    }
}

/// Distinct values never share an encoding: two creations in different
/// milliseconds cannot collide. (Two in the same millisecond can, which is
/// the generator's acknowledged weak spot.)
pub proof fn lemma_b62_injective(m: nat, n: nat)
    requires
        m != n,
    ensures
        b62_bytes(m) != b62_bytes(n),
        b62_chars(m) != b62_chars(n),
{
    if m < n {
        lemma_b62_monotonic(m, n);
        lemma_b62_lt_irreflexive(b62_bytes(n));
    } else {
        lemma_b62_monotonic(n, m);
        lemma_b62_lt_irreflexive(b62_bytes(m));
    }
    let cm = b62_bytes(m).map_values(|b: u8| b as char);
    let cn = b62_bytes(n).map_values(|b: u8| b as char);
    if cm == cn {
        assert(cm.len() == cn.len());
        assert forall|i: int| 0 <= i < b62_bytes(m).len() implies b62_bytes(m)[i] == b62_bytes(
            n,
        )[i] by {
            assert(cm[i] == b62_bytes(m)[i] as char);
            assert(cn[i] == b62_bytes(n)[i] as char);
        }
        assert(b62_bytes(m) =~= b62_bytes(n));
    }
}

/// Relies on base62::encode: it writes its argument in base 62 with the
/// standard alphabet 0-9, A-Z, a-z, most significant digit first, and a
/// single digit 0 for zero.
#[verifier::external_body]
fn encode_base62(n: u128) -> (r: String)
    ensures
        r@ == b62_chars(n as nat),
{
    base62::encode(n)
}

/// Relies on std::time::SystemTime::now and duration_since: the time since
/// the Unix epoch in milliseconds, or None when the clock reads earlier than
/// the epoch.
#[verifier::external_body]
fn clock_millis() -> (r: Option<u128>) {
    match std::time::SystemTime::now().duration_since(std::time::UNIX_EPOCH) {
        Ok(d) => Some(d.as_millis()),
        Err(_) => None,
    }
}

/// The alias minted for the timestamp `millis`: its base-62 encoding.
pub fn alias_of_millis(millis: u128) -> (r: String)
    ensures
        r@ == b62_chars(millis as nat),
{
    encode_base62(millis)
}

/// Mint an alias from the current wall-clock time, or return None when the
/// clock cannot be read.
pub fn unique_id() -> (r: Option<String>)
    ensures
        r matches Some(s) ==> exists|m: nat| s@ == b62_chars(m),
{
    match clock_millis() {
        Some(m) => Some(alias_of_millis(m)),
        None => None,
    }
}

} // verus!
