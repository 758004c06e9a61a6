//! Text helpers: string building, string comparison and decimal rendering.

use vstd::prelude::*;
use vstd::string::*;
use vstd::utf8::encode_utf8;

verus! {

/// Appends one character to a string.
///
/// Trusted: calls `String::push`, which appends the character at the end.
#[verifier::external_body]
pub fn string_push(s: &mut String, c: char)
    ensures
        final(s)@ == old(s)@.push(c),
{
    s.push(c);
}

/// Compares two string slices for equality.
///
/// Trusted: calls `<str as PartialEq>::eq`, which compares the contents.
#[verifier::external_body]
pub fn str_eq(a: &str, b: &str) -> (r: bool)
    ensures
        r == (a@ == b@),
{
    a == b
}

/// The decimal digit character for `d`.
pub open spec fn digit_char(d: nat) -> char {
    (('0' as u32) + d) as char
}

/// The decimal rendering of a natural number, most significant digit first.
pub open spec fn decimal(n: nat) -> Seq<char>
    decreases n,
{
    if n < 10 {
        seq![digit_char(n)]
    } else {
        decimal(n / 10).push(digit_char(n % 10))
    }
}

/// Appends the decimal rendering of `n` to `s`.
pub fn push_decimal(s: &mut String, n: u64)
    ensures
        final(s)@ == old(s)@ + decimal(n as nat),
    decreases n,
{
    if n < 10 {
        let c = char_of_digit(n);
        string_push(s, c);
    } else {
        push_decimal(s, n / 10);
        let c = char_of_digit(n % 10);
        string_push(s, c);
    }
}

fn char_of_digit(d: u64) -> (c: char)
    requires
        d < 10,
    ensures
        c == digit_char(d as nat),
{
    let code: u8 = 48u8 + (d as u8);
    code as char
}

/// The decimal rendering of an integer, with a leading `-` when negative.
pub open spec fn int_text(v: int) -> Seq<char> {
    if v < 0 {
        seq!['-'] + decimal((-v) as nat)
    } else {
        decimal(v as nat)
    }
}

/// Appends the decimal rendering of a signed integer to `s`.
pub fn push_int(s: &mut String, v: i64)
    ensures
        final(s)@ == old(s)@ + int_text(v as int),
{
    if v < 0 {
        string_push(s, '-');
        let magnitude: u64 = if v == i64::MIN {
            9223372036854775808u64
        } else {
            (-v) as u64
        };
        push_decimal(s, magnitude);
        assert(s@ == old(s)@ + int_text(v as int));
    } else {
        push_decimal(s, v as u64);
    }
}

/// Appends a string slice to `s`.
pub fn push_str(s: &mut String, t: &str)
    ensures
        final(s)@ == old(s)@ + t@,
{
    s.append(t);
}

/// The magnitude of an integer.
pub open spec fn magnitude(a: int) -> int {
    if a < 0 {
        -a
    } else {
        a
    }
}

/// Division rounding toward zero, as integer division does on machine integers.
pub open spec fn trunc_div(a: int, b: int) -> int {
    let q = magnitude(a) / magnitude(b);
    if (a < 0) != (b < 0) {
        -q
    } else {
        q
    }
}

/// The remainder of [`trunc_div`]: the remainder of the magnitudes, with the sign of `a`.
pub open spec fn trunc_rem(a: int, b: int) -> int {
    let r = magnitude(a) % magnitude(b);
    if a < 0 {
        -r
    } else {
        r
    }
}

fn magnitude_u64(a: i64) -> (r: u64)
    ensures
        r == magnitude(a as int),
{
    if a == i64::MIN {
        9223372036854775808u64
    } else if a < 0 {
        (-a) as u64
    } else {
        a as u64
    }
}

/// `a / b` on machine integers (rounding toward zero).
pub fn div_trunc(a: i64, b: i64) -> (r: i64)
    requires
        b != 0,
        !(a == i64::MIN && b == -1),
    ensures
        r == trunc_div(a as int, b as int),
{
    let ua = magnitude_u64(a);
    let ub = magnitude_u64(b);
    let q = ua / ub;
    assert(q <= ua) by (nonlinear_arith)
        requires
            ub >= 1,
            q == ua / ub,
    ;
    if (a < 0) != (b < 0) {
        if q == 9223372036854775808u64 {
            i64::MIN
        } else {
            -(q as i64)
        }
    } else {
        assert(q < 9223372036854775808u64) by (nonlinear_arith)
            requires
                ub >= 1,
                q == ua / ub,
                ua <= 9223372036854775808u64,
                ua == 9223372036854775808u64 ==> ub >= 2,
        ;
        q as i64
    }
}

/// `a % b` on machine integers (the remainder has the sign of `a`).
pub fn rem_trunc(a: i64, b: i64) -> (r: i64)
    requires
        b != 0,
        !(a == i64::MIN && b == -1),
    ensures
        r == trunc_rem(a as int, b as int),
{
    let ua = magnitude_u64(a);
    let ub = magnitude_u64(b);
    let m = ua % ub;
    assert(m < ub);
    if a < 0 {
        -(m as i64)
    } else {
        m as i64
    }
}


/// Lexicographic order on byte sequences; a proper prefix comes first.
pub open spec fn bytes_lt(a: Seq<u8>, b: Seq<u8>) -> bool
    decreases a.len(),
{
    if a.len() == 0 {
        b.len() > 0
    } else if b.len() == 0 {
        false
    } else if a[0] != b[0] {
        a[0] < b[0]
    } else {
        bytes_lt(a.drop_first(), b.drop_first())
    }
}

/// The order of strings: that of their UTF-8 bytes.
pub open spec fn str_before(a: Seq<char>, b: Seq<char>) -> bool {
    bytes_lt(encode_utf8(a), encode_utf8(b))
}

/// No byte sequence comes before itself.
pub proof fn lemma_bytes_lt_irreflexive(a: Seq<u8>)
    ensures
        !bytes_lt(a, a),
    decreases a.len(),
{
    if a.len() > 0 {
        lemma_bytes_lt_irreflexive(a.drop_first());
    }
}

/// The order on byte sequences is transitive.
pub proof fn lemma_bytes_lt_transitive(a: Seq<u8>, b: Seq<u8>, c: Seq<u8>)
    requires
        bytes_lt(a, b),
        bytes_lt(b, c),
    ensures
        bytes_lt(a, c),
    decreases a.len(),
{
    if a.len() > 0 && b.len() > 0 && c.len() > 0 && a[0] == b[0] && b[0] == c[0] {
        lemma_bytes_lt_transitive(a.drop_first(), b.drop_first(), c.drop_first());
    }
}

/// Of two different byte sequences, one comes before the other, and not both ways.
pub proof fn lemma_bytes_lt_total(a: Seq<u8>, b: Seq<u8>)
    ensures
        a != b ==> (bytes_lt(a, b) || bytes_lt(b, a)),
        !(bytes_lt(a, b) && bytes_lt(b, a)),
    decreases a.len(),
{
    if a.len() > 0 && b.len() > 0 && a[0] == b[0] {
        lemma_bytes_lt_total(a.drop_first(), b.drop_first());
        if a != b {
            assert(a.drop_first() != b.drop_first()) by {
                if a.drop_first() == b.drop_first() {
                    assert(a =~= seq![a[0]] + a.drop_first());
                    assert(b =~= seq![b[0]] + b.drop_first());
                }
            }
        }
    } else if a.len() == 0 && b.len() == 0 {
        assert(a =~= b);
    }
}

/// The order of strings is a strict total order.
pub proof fn lemma_str_before_order(a: Seq<char>, b: Seq<char>, c: Seq<char>)
    ensures
        !str_before(a, a),
        a != b ==> (str_before(a, b) || str_before(b, a)),
        !(str_before(a, b) && str_before(b, a)),
        str_before(a, b) && str_before(b, c) ==> str_before(a, c),
{
    lemma_bytes_lt_irreflexive(encode_utf8(a));
    lemma_bytes_lt_total(encode_utf8(a), encode_utf8(b));
    if a != b {
        vstd::utf8::encode_utf8_decode_utf8(a);
        vstd::utf8::encode_utf8_decode_utf8(b);
    }
    if str_before(a, b) && str_before(b, c) {
        lemma_bytes_lt_transitive(encode_utf8(a), encode_utf8(b), encode_utf8(c));
    }
}

/// Whether `a` comes before `b`, comparing their UTF-8 bytes.
pub fn str_lt(a: &str, b: &str) -> (r: bool)
    ensures
        r == str_before(a@, b@),
{
    let ab = a.as_bytes();
    let bb = b.as_bytes();
    let n = ab.len();
    let m = bb.len();
    let mut i: usize = 0;
    assert(ab@.skip(0) =~= ab@);
    assert(bb@.skip(0) =~= bb@);
    while i < n && i < m
        invariant
            ab@ == encode_utf8(a@),
            bb@ == encode_utf8(b@),
            n == ab@.len(),
            m == bb@.len(),
            i <= n,
            i <= m,
            bytes_lt(ab@, bb@) == bytes_lt(ab@.skip(i as int), bb@.skip(i as int)),
        decreases n - i,
    {
        assert(ab@.skip(i as int)[0] == ab@[i as int]);
        assert(bb@.skip(i as int)[0] == bb@[i as int]);
        if ab[i] != bb[i] {
            return ab[i] < bb[i];
        }
        assert(ab@.skip(i as int).drop_first() =~= ab@.skip(i + 1));
        assert(bb@.skip(i as int).drop_first() =~= bb@.skip(i + 1));
        i = i + 1;
    }
    i < m
}

} // verus!
