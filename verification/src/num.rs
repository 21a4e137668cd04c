//! Decimal text: formatting of integers and recognition of the integer and
//! float lanes of the scalar wire format.
//!
//! Scalars travel on the wire as their canonical decimal/text bytes. A
//! decoder first tries the signed 64-bit integer grammar, then the float
//! grammar, and otherwise treats the bytes as plain text, so the exact
//! grammars below are part of the wire contract.

use vstd::prelude::*;

verus! {

/// ASCII digit.
pub open spec fn is_digit(b: u8) -> bool {
    48 <= b <= 57
}

/// Every byte of `s` is an ASCII digit.
pub open spec fn all_digits(s: Seq<u8>) -> bool {
    forall|i: int| 0 <= i < s.len() ==> is_digit(#[trigger] s[i])
}

/// The value of a digit string, most significant digit first.
pub open spec fn digits_val(s: Seq<u8>) -> nat
    decreases s.len(),
{
    if s.len() == 0 {
        0
    } else {
        (digits_val(s.drop_last()) * 10 + (s.last() - 48)) as nat
    }
}

/// The canonical decimal digits of `n`: no sign, no leading zero except
/// for zero itself.
pub open spec fn dec_digits(n: nat) -> Seq<u8>
    decreases n,
{
    if n < 10 {
        seq![(48 + n) as u8]
    } else {
        dec_digits(n / 10) + seq![(48 + n % 10) as u8]
    }
}

/// The canonical decimal text of a signed integer: a minus sign for
/// negative values, then the digits of the magnitude.
pub open spec fn int_dec(i: int) -> Seq<u8> {
    if i < 0 {
        seq![45u8] + dec_digits((-i) as nat)
    } else {
        dec_digits(i as nat)
    }
}

/// The digit part of an optionally signed integer text.
pub open spec fn int_body(s: Seq<u8>) -> Seq<u8> {
    if s.len() > 0 && (s[0] == 43 || s[0] == 45) {
        s.drop_first()
    } else {
        s
    }
}

/// True when the text carries a leading minus sign.
pub open spec fn int_negative(s: Seq<u8>) -> bool {
    s.len() > 0 && s[0] == 45
}

/// The signed 64-bit integer grammar: an optional `+` or `-`, then one or
/// more digits, with the value in the range of a 64-bit signed integer.
pub open spec fn is_int_text(s: Seq<u8>) -> bool {
    let body = int_body(s);
    &&& body.len() > 0
    &&& all_digits(body)
    &&& (if int_negative(s) {
        digits_val(body) <= 0x8000_0000_0000_0000
    } else {
        digits_val(body) < 0x8000_0000_0000_0000
    })
}

/// The value an integer text denotes.
pub open spec fn int_text_val(s: Seq<u8>) -> int {
    if int_negative(s) {
        -(digits_val(int_body(s)) as int)
    } else {
        digits_val(int_body(s)) as int
    }
}

/// Formats an unsigned value as its canonical decimal digits.
pub fn u64_to_dec(n: u64) -> (r: Vec<u8>)
    ensures
        r@ == dec_digits(n as nat),
    decreases n,
{
    if n < 10 {
        let mut r: Vec<u8> = Vec::new();
        r.push(48 + (n as u8));
        proof {
            assert(r@ =~= dec_digits(n as nat));
        }
        r
    } else {
        let mut r = u64_to_dec(n / 10);
        r.push(48 + ((n % 10) as u8));
        proof {
            assert(r@ =~= dec_digits(n as nat));
        }
        r
    }
}

/// Formats a signed value as its canonical decimal text.
pub fn i64_to_dec(i: i64) -> (r: Vec<u8>)
    ensures
        r@ == int_dec(i as int),
{
    if i >= 0 {
        let r = u64_to_dec(i as u64);
        r
    } else {
        let m: u64 = ((0 as i128) - (i as i128)) as u64;
        let digits = u64_to_dec(m);
        let mut r: Vec<u8> = Vec::new();
        r.push(45);
        let mut k: usize = 0;
        while k < digits.len()
            invariant
                0 <= k <= digits@.len(),
                r@ == seq![45u8] + digits@.subrange(0, k as int),
            decreases digits@.len() - k,
        {
            r.push(digits[k]);
            k = k + 1;
            proof {
                assert(r@ =~= seq![45u8] + digits@.subrange(0, k as int));
            }
        }
        proof {
            assert(digits@.subrange(0, digits@.len() as int) =~= digits@);
        }
        r
    }
}

/// The canonical digits of `n` are digits, denote `n`, and never start
/// with a superfluous zero.
pub proof fn lemma_dec_digits(n: nat)
    ensures
        dec_digits(n).len() >= 1,
        all_digits(dec_digits(n)),
        digits_val(dec_digits(n)) == n,
        n > 0 ==> dec_digits(n)[0] != 48,
    decreases n,
{
    if n < 10 {
        let s = dec_digits(n);
        assert(s =~= seq![(48 + n) as u8]);
        assert(s.drop_last() =~= Seq::<u8>::empty());
        assert(digits_val(Seq::<u8>::empty()) == 0);
        assert(digits_val(s) == (0 * 10 + ((48 + n) as u8 - 48)) as nat);
    } else {
        lemma_dec_digits(n / 10);
        let s = dec_digits(n);
        assert(s =~= dec_digits(n / 10) + seq![(48 + n % 10) as u8]);
        assert(s.drop_last() =~= dec_digits(n / 10));
        assert(s.last() == (48 + n % 10) as u8);
        assert(digits_val(s) == ((n / 10) * 10 + ((48 + n % 10) as u8 - 48)) as nat);
        vstd::arithmetic::div_mod::lemma_fundamental_div_mod(n as int, 10);
        assert((n / 10) * 10 + n % 10 == n);
        assert(s[0] == dec_digits(n / 10)[0]);
        assert(n / 10 > 0);
    }
}

/// Appending a digit multiplies the value by ten and adds the digit.
proof fn lemma_digits_val_push(s: Seq<u8>, d: u8)
    requires
        is_digit(d),
    ensures
        digits_val(s.push(d)) == digits_val(s) * 10 + (d - 48),
{
    assert(s.push(d).drop_last() =~= s);
    assert(s.push(d).last() == d);
}

/// The value of a digit string never drops when more digits follow: every
/// prefix denotes at most the whole.
proof fn lemma_digits_val_prefix(s: Seq<u8>, i: int)
    requires
        0 <= i <= s.len(),
        all_digits(s),
    ensures
        digits_val(s.subrange(0, i)) <= digits_val(s),
    decreases s.len() - i,
{
    if i == s.len() {
        assert(s.subrange(0, i) =~= s);
    } else {
        let p = s.subrange(0, i);
        let q = s.subrange(0, i + 1);
        assert(q =~= p.push(s[i]));
        lemma_digits_val_push(p, s[i]);
        assert(digits_val(p) * 10 >= digits_val(p) * 1) by (nonlinear_arith);
        lemma_digits_val_prefix(s, i + 1);
    }
}

/// Parses the signed 64-bit integer grammar; `None` exactly on text the
/// grammar rejects.
pub fn parse_i64(s: &[u8]) -> (r: Option<i64>)
    ensures
        r is Some <==> is_int_text(s@),
        r matches Some(v) ==> v as int == int_text_val(s@),
{
    let n = s.len();
    if n == 0 {
        return None;
    }
    let negative: bool = s[0] == 45;
    let start: usize = if s[0] == 43 || s[0] == 45 {
        1
    } else {
        0
    };
    proof {
        assert(int_body(s@) =~= s@.subrange(start as int, n as int));
    }
    if start == n {
        return None;
    }
    let limit: u64 = if negative {
        0x8000_0000_0000_0000
    } else {
        0x7fff_ffff_ffff_ffff
    };
    let ghost body = s@.subrange(start as int, n as int);
    let mut acc: u64 = 0;
    let mut k: usize = start;
    while k < n
        invariant
            start <= k <= n,
            n == s@.len(),
            body == s@.subrange(start as int, n as int),
            int_body(s@) == body,
            int_negative(s@) == negative,
            all_digits(s@.subrange(start as int, k as int)),
            acc == digits_val(s@.subrange(start as int, k as int)),
            acc <= limit,
            limit == if negative {
                0x8000_0000_0000_0000u64
            } else {
                0x7fff_ffff_ffff_ffffu64
            },
        decreases n - k,
    {
        let b = s[k];
        if b < 48 || b > 57 {
            proof {
                assert(body[k - start] == b);
                assert(!is_digit(body[k - start]));
                assert(!all_digits(body));
                assert(!is_int_text(s@));
            }
            return None;
        }
        let d: u64 = (b - 48) as u64;
        proof {
            assert(s@.subrange(start as int, k + 1) =~= s@.subrange(start as int, k as int).push(
                b,
            ));
            lemma_digits_val_push(s@.subrange(start as int, k as int), b);
        }
        if acc > (limit - d) / 10 {
            proof {
                let pref = s@.subrange(start as int, k + 1);
                assert(digits_val(pref) == acc * 10 + d);
                assert(acc * 10 + d > limit) by (nonlinear_arith)
                    requires
                        acc > (limit - d) / 10,
                        d <= 9,
                        limit >= d,
                ;
                assert(pref =~= body.subrange(0, k + 1 - start));
                if all_digits(body) {
                    lemma_digits_val_prefix(body, k + 1 - start);
                    assert(digits_val(body) > limit);
                }
                assert(!is_int_text(s@));
            }
            return None;
        }
        acc = acc * 10 + d;
        k = k + 1;
    }
    proof {
        assert(s@.subrange(start as int, n as int) =~= body);
        assert(is_int_text(s@));
    }
    if negative {
        let v: i64 = ((0 as i128) - (acc as i128)) as i64;
        Some(v)
    } else {
        Some(acc as i64)
    }
}

/// Integer text is plain ASCII and starts with a sign or a digit.
pub proof fn lemma_int_text_bytes(s: Seq<u8>)
    requires
        is_int_text(s),
    ensures
        s.len() > 0,
        43 <= s[0] <= 57,
        forall|i: int| 0 <= i < s.len() ==> #[trigger] s[i] < 0x80,
{
    let body = int_body(s);
    if s.len() > 0 && (s[0] == 43 || s[0] == 45) {
        assert(forall|i: int| 1 <= i < s.len() ==> #[trigger] s[i] == body[i - 1]);
        assert(forall|i: int| 1 <= i < s.len() ==> is_digit(#[trigger] body[i - 1]));
    } else {
        assert(body =~= s);
        assert(s.len() > 0);
        assert(is_digit(s[0]));
        assert(forall|i: int| 0 <= i < s.len() ==> is_digit(#[trigger] s[i]));
    }
}

/// A decimal digit as a character.
pub open spec fn digit_char(d: nat) -> char {
    if d == 0 {
        '0'
    } else if d == 1 {
        '1'
    } else if d == 2 {
        '2'
    } else if d == 3 {
        '3'
    } else if d == 4 {
        '4'
    } else if d == 5 {
        '5'
    } else if d == 6 {
        '6'
    } else if d == 7 {
        '7'
    } else if d == 8 {
        '8'
    } else {
        '9'
    }
}

/// The canonical decimal digits of `n`, as characters.
pub open spec fn dec_chars(n: nat) -> Seq<char>
    decreases n,
{
    if n < 10 {
        seq![digit_char(n)]
    } else {
        dec_chars(n / 10) + seq![digit_char(n % 10)]
    }
}

/// The canonical decimal text of a signed integer, as characters.
pub open spec fn int_dec_chars(i: int) -> Seq<char> {
    if i < 0 {
        seq!['-'] + dec_chars((-i) as nat)
    } else {
        dec_chars(i as nat)
    }
}

/// Appends one decimal digit character.
fn push_digit_char(r: &mut String, d: u64)
    requires
        d < 10,
    ensures
        final(r)@ == old(r)@ + seq![digit_char(d as nat)],
{
    proof {
        reveal_strlit("0");
        reveal_strlit("1");
        reveal_strlit("2");
        reveal_strlit("3");
        reveal_strlit("4");
        reveal_strlit("5");
        reveal_strlit("6");
        reveal_strlit("7");
        reveal_strlit("8");
        reveal_strlit("9");
    }
    if d == 0 {
        r.append("0");
    } else if d == 1 {
        r.append("1");
    } else if d == 2 {
        r.append("2");
    } else if d == 3 {
        r.append("3");
    } else if d == 4 {
        r.append("4");
    } else if d == 5 {
        r.append("5");
    } else if d == 6 {
        r.append("6");
    } else if d == 7 {
        r.append("7");
    } else if d == 8 {
        r.append("8");
    } else {
        r.append("9");
    }
    proof {
        assert(r@ =~= old(r)@ + seq![digit_char(d as nat)]);
    }
}

/// Appends the canonical decimal digits of an unsigned value.
pub fn append_u64_dec(r: &mut String, n: u64)
    ensures
        final(r)@ == old(r)@ + dec_chars(n as nat),
    decreases n,
{
    if n < 10 {
        push_digit_char(r, n);
    } else {
        append_u64_dec(r, n / 10);
        push_digit_char(r, n % 10);
        proof {
            assert(r@ =~= old(r)@ + dec_chars(n as nat));
        }
    }
}

/// Appends the canonical decimal text of a signed value.
pub fn append_i64_dec(r: &mut String, i: i64)
    ensures
        final(r)@ == old(r)@ + int_dec_chars(i as int),
{
    if i >= 0 {
        append_u64_dec(r, i as u64);
    } else {
        proof {
            reveal_strlit("-");
        }
        r.append("-");
        let m: u64 = ((0 as i128) - (i as i128)) as u64;
        append_u64_dec(r, m);
        proof {
            assert(r@ =~= old(r)@ + int_dec_chars(i as int));
        }
    }
}

/// The canonical text of a signed value parses back to that value.
pub proof fn lemma_int_text_round_trip(i: int)
    requires
        -0x8000_0000_0000_0000 <= i < 0x8000_0000_0000_0000,
    ensures
        is_int_text(int_dec(i)),
        int_text_val(int_dec(i)) == i,
{
    if i < 0 {
        let s = int_dec(i);
        lemma_dec_digits((-i) as nat);
        assert(s =~= seq![45u8] + dec_digits((-i) as nat));
        assert(s[0] == 45);
        assert(int_body(s) =~= dec_digits((-i) as nat));
    } else {
        let s = int_dec(i);
        lemma_dec_digits(i as nat);
        assert(s =~= dec_digits(i as nat));
        assert(is_digit(s[0]));
        assert(int_body(s) =~= s);
    }
}

} // verus!
