//! The float lane of the scalar wire format: recognition of decimal
//! floating-point text.
//!
//! The grammar is the one Rust documents for parsing 64-bit floats from
//! text: an optional sign, then either one of the special words `inf`,
//! `infinity` or `nan` (case-insensitive), or a mantissa of digits with at
//! most one point and at least one digit, followed by an optional exponent
//! `e`/`E`, optional sign, and one or more digits. The decoder only needs
//! to recognise the lane; the text itself is kept verbatim.

use vstd::prelude::*;

use crate::num::all_digits;
use crate::num::int_body;
use crate::num::is_digit;

verus! {

/// Lower-cases an ASCII letter; leaves every other byte alone.
pub open spec fn lower(b: u8) -> u8 {
    if 65 <= b <= 90 {
        (b + 32) as u8
    } else {
        b
    }
}

/// `s` spells `w` (given in lower case) ignoring ASCII case.
pub open spec fn matches_word(s: Seq<u8>, w: Seq<u8>) -> bool {
    s.len() == w.len() && (forall|i: int| 0 <= i < s.len() ==> lower(#[trigger] s[i]) == w[i])
}

/// The bytes of `inf`.
pub open spec fn inf_word() -> Seq<u8> {
    seq![105u8, 110u8, 102u8]
}

/// The bytes of `infinity`.
pub open spec fn infinity_word() -> Seq<u8> {
    seq![105u8, 110u8, 102u8, 105u8, 110u8, 105u8, 116u8, 121u8]
}

/// The bytes of `nan`.
pub open spec fn nan_word() -> Seq<u8> {
    seq![110u8, 97u8, 110u8]
}

/// One of the special float words, ignoring case.
pub open spec fn is_special_word(s: Seq<u8>) -> bool {
    ||| matches_word(s, inf_word())
    ||| matches_word(s, infinity_word())
    ||| matches_word(s, nan_word())
}

/// An exponent marker byte: `e` or `E`.
pub open spec fn is_exp_byte(b: u8) -> bool {
    b == 101 || b == 69
}

/// The decimal point.
pub open spec fn is_dot_byte(b: u8) -> bool {
    b == 46
}

/// Index of the first exponent marker, or the length when there is none.
pub open spec fn first_exp_idx(s: Seq<u8>) -> int
    decreases s.len(),
{
    if s.len() == 0 {
        0
    } else if is_exp_byte(s[0]) {
        0
    } else {
        1 + first_exp_idx(s.drop_first())
    }
}

/// Index of the first decimal point, or the length when there is none.
pub open spec fn first_dot_idx(s: Seq<u8>) -> int
    decreases s.len(),
{
    if s.len() == 0 {
        0
    } else if is_dot_byte(s[0]) {
        0
    } else {
        1 + first_dot_idx(s.drop_first())
    }
}

/// Digits with at most one point between them, and at least one digit.
pub open spec fn is_mantissa(m: Seq<u8>) -> bool {
    let di = first_dot_idx(m);
    if di == m.len() {
        m.len() > 0 && all_digits(m)
    } else {
        let pre = m.subrange(0, di);
        let post = m.subrange(di + 1, m.len() as int);
        all_digits(pre) && all_digits(post) && pre.len() + post.len() >= 1
    }
}

/// An optional sign followed by one or more digits.
pub open spec fn is_signed_digits(s: Seq<u8>) -> bool {
    int_body(s).len() > 0 && all_digits(int_body(s))
}

/// An exponent part: the marker, then signed digits.
pub open spec fn is_exp_part(e: Seq<u8>) -> bool {
    e.len() > 0 && is_exp_byte(e[0]) && is_signed_digits(e.drop_first())
}

/// A mantissa with an optional exponent part.
pub open spec fn is_number_text(s: Seq<u8>) -> bool {
    let ei = first_exp_idx(s);
    &&& is_mantissa(s.subrange(0, ei))
    &&& (ei < s.len() ==> is_exp_part(s.subrange(ei, s.len() as int)))
}

/// The float grammar: an optional sign, then a special word or a number.
pub open spec fn is_float_text(s: Seq<u8>) -> bool {
    is_special_word(int_body(s)) || is_number_text(int_body(s))
}

/// The first exponent marker lies within the text, and marks an exponent
/// byte when it is not the length.
proof fn lemma_first_exp_idx_bounds(s: Seq<u8>)
    ensures
        0 <= first_exp_idx(s) <= s.len(),
        first_exp_idx(s) < s.len() ==> is_exp_byte(s[first_exp_idx(s)]),
    decreases s.len(),
{
    if s.len() == 0 {
    } else if is_exp_byte(s[0]) {
    } else {
        lemma_first_exp_idx_bounds(s.drop_first());
    }
}

/// The first point lies within the text, and marks a point byte when it
/// is not the length.
proof fn lemma_first_dot_idx_bounds(s: Seq<u8>)
    ensures
        0 <= first_dot_idx(s) <= s.len(),
        first_dot_idx(s) < s.len() ==> is_dot_byte(s[first_dot_idx(s)]),
    decreases s.len(),
{
    if s.len() == 0 {
    } else if is_dot_byte(s[0]) {
    } else {
        lemma_first_dot_idx_bounds(s.drop_first());
    }
}

/// Every byte a special word can hold is a plain-ASCII letter.
proof fn lemma_special_word_bytes(s: Seq<u8>)
    requires
        is_special_word(s),
    ensures
        s.len() > 0,
        43 <= s[0] < 0x80,
        forall|i: int| 0 <= i < s.len() ==> #[trigger] s[i] < 0x80,
{
    assert forall|i: int| 0 <= i < s.len() implies #[trigger] s[i] < 0x80 && s[i] >= 43 by {
        if matches_word(s, inf_word()) {
            assert(lower(s[i]) == inf_word()[i]);
        } else if matches_word(s, infinity_word()) {
            assert(lower(s[i]) == infinity_word()[i]);
        } else {
            assert(lower(s[i]) == nan_word()[i]);
        }
    }
    assert(s[0] < 0x80);
}

/// The bytes a mantissa can hold: digits and at most one point.
proof fn lemma_mantissa_bytes(m: Seq<u8>)
    requires
        is_mantissa(m),
    ensures
        m.len() > 0,
        43 <= m[0] <= 57,
        forall|i: int| 0 <= i < m.len() ==> 43 <= #[trigger] m[i] <= 57,
{
    let di = first_dot_idx(m);
    lemma_first_dot_idx_bounds(m);
    assert forall|i: int| 0 <= i < m.len() implies 43 <= #[trigger] m[i] <= 57 by {
        if di == m.len() {
            assert(is_digit(m[i]));
        } else if i < di {
            let pre = m.subrange(0, di);
            assert(pre[i] == m[i]);
            assert(is_digit(pre[i]));
        } else if i == di {
            assert(is_dot_byte(m[i]));
        } else {
            let post = m.subrange(di + 1, m.len() as int);
            assert(post[i - di - 1] == m[i]);
            assert(is_digit(post[i - di - 1]));
        }
    }
    if di == m.len() {
        assert(m.len() > 0);
    } else {
        let pre = m.subrange(0, di);
        let post = m.subrange(di + 1, m.len() as int);
        assert(pre.len() + post.len() >= 1);
        assert(m.len() > 0);
    }
}

/// Float text is plain ASCII and starts with a byte no smaller than `+`:
/// in particular never with a wire marker.
pub proof fn lemma_float_text_bytes(s: Seq<u8>)
    requires
        is_float_text(s),
    ensures
        s.len() > 0,
        43 <= s[0] < 0x80,
        forall|i: int| 0 <= i < s.len() ==> #[trigger] s[i] < 0x80,
{
    let b = int_body(s);
    let signed = s.len() > 0 && (s[0] == 43 || s[0] == 45);
    if signed {
        assert(forall|i: int| 1 <= i < s.len() ==> #[trigger] s[i] == b[i - 1]);
    } else {
        assert(b =~= s);
    }
    if is_special_word(b) {
        lemma_special_word_bytes(b);
    } else {
        let ei = first_exp_idx(b);
        lemma_first_exp_idx_bounds(b);
        let mant = b.subrange(0, ei);
        lemma_mantissa_bytes(mant);
        assert(b.len() > 0);
        assert(b[0] == mant[0]);
        assert forall|i: int| 0 <= i < b.len() implies 43 <= #[trigger] b[i] < 0x80 by {
            if i < ei {
                assert(mant[i] == b[i]);
            } else if i == ei {
                assert(is_exp_byte(b[i]));
            } else {
                let epart = b.subrange(ei, b.len() as int);
                let t = epart.drop_first();
                let u = int_body(t);
                assert(t[i - ei - 1] == b[i]);
                if t.len() > 0 && (t[0] == 43 || t[0] == 45) {
                    if i == ei + 1 {
                        assert(b[i] == t[0]);
                    } else {
                        assert(u[i - ei - 2] == t[i - ei - 1]);
                        assert(is_digit(u[i - ei - 2]));
                    }
                } else {
                    assert(u =~= t);
                    assert(is_digit(u[i - ei - 1]));
                }
            }
        }
    }
}

/// Lower-cases an ASCII letter.
pub fn lower_byte(b: u8) -> (r: u8)
    ensures
        r == lower(b),
{
    if 65 <= b && b <= 90 {
        b + 32
    } else {
        b
    }
}

/// Compares the tail of `s` from `start` with a lower-case word, ignoring
/// ASCII case.
fn matches_word_at(s: &[u8], start: usize, w: &Vec<u8>) -> (r: bool)
    requires
        start <= s@.len(),
    ensures
        r == matches_word(s@.subrange(start as int, s@.len() as int), w@),
{
    let n = s.len();
    let ghost sub = s@.subrange(start as int, n as int);
    if n - start != w.len() {
        return false;
    }
    let mut i: usize = 0;
    while i < w.len()
        invariant
            0 <= i <= w@.len(),
            start + w@.len() == n,
            n == s@.len(),
            sub == s@.subrange(start as int, n as int),
            forall|j: int| 0 <= j < i ==> lower(#[trigger] sub[j]) == w@[j],
        decreases w@.len() - i,
    {
        let b = lower_byte(s[start + i]);
        if b != w[i] {
            proof {
                assert(sub[i as int] == s@[start + i]);
                assert(lower(sub[i as int]) != w@[i as int]);
            }
            return false;
        }
        proof {
            assert(sub[i as int] == s@[start + i]);
        }
        i = i + 1;
    }
    true
}

/// `first_exp_idx` is the scan result: no marker before `i`, and a marker
/// at `i` unless `i` is the length.
proof fn lemma_first_exp_idx(s: Seq<u8>, i: int)
    requires
        0 <= i <= s.len(),
        forall|j: int| 0 <= j < i ==> !is_exp_byte(#[trigger] s[j]),
        i < s.len() ==> is_exp_byte(s[i]),
    ensures
        first_exp_idx(s) == i,
    decreases s.len(),
{
    if s.len() == 0 {
    } else if is_exp_byte(s[0]) {
        assert(i == 0);
    } else {
        assert(i >= 1);
        let t = s.drop_first();
        assert(forall|j: int| 0 <= j < i - 1 ==> #[trigger] t[j] == s[j + 1]);
        lemma_first_exp_idx(t, i - 1);
    }
}

/// `first_dot_idx` is the scan result, as for the exponent marker.
proof fn lemma_first_dot_idx(s: Seq<u8>, i: int)
    requires
        0 <= i <= s.len(),
        forall|j: int| 0 <= j < i ==> !is_dot_byte(#[trigger] s[j]),
        i < s.len() ==> is_dot_byte(s[i]),
    ensures
        first_dot_idx(s) == i,
    decreases s.len(),
{
    if s.len() == 0 {
    } else if is_dot_byte(s[0]) {
        assert(i == 0);
    } else {
        assert(i >= 1);
        let t = s.drop_first();
        assert(forall|j: int| 0 <= j < i - 1 ==> #[trigger] t[j] == s[j + 1]);
        lemma_first_dot_idx(t, i - 1);
    }
}

/// Recognises the float grammar; never panics, touches nothing else.
#[verifier::rlimit(60)]
#[verifier::spinoff_prover]
pub fn is_float(s: &[u8]) -> (r: bool)
    ensures
        r == is_float_text(s@),
{
    let n = s.len();
    let start: usize = if n > 0 && (s[0] == 43 || s[0] == 45) {
        1
    } else {
        0
    };
    proof {
        assert(int_body(s@) =~= s@.subrange(start as int, n as int));
    }
    let ghost b = s@.subrange(start as int, n as int);
    let mut inf_w: Vec<u8> = Vec::new();
    inf_w.push(105);
    inf_w.push(110);
    inf_w.push(102);
    let mut infinity_w: Vec<u8> = Vec::new();
    infinity_w.push(105);
    infinity_w.push(110);
    infinity_w.push(102);
    infinity_w.push(105);
    infinity_w.push(110);
    infinity_w.push(105);
    infinity_w.push(116);
    infinity_w.push(121);
    let mut nan_w: Vec<u8> = Vec::new();
    nan_w.push(110);
    nan_w.push(97);
    nan_w.push(110);
    proof {
        assert(inf_w@ =~= inf_word());
        assert(infinity_w@ =~= infinity_word());
        assert(nan_w@ =~= nan_word());
    }
    if matches_word_at(s, start, &inf_w) {
        return true;
    }
    if matches_word_at(s, start, &infinity_w) {
        return true;
    }
    if matches_word_at(s, start, &nan_w) {
        return true;
    }
    // Locate the exponent marker.
    let mut ei: usize = start;
    while ei < n && !(s[ei] == 101 || s[ei] == 69)
        invariant
            start <= ei <= n,
            n == s@.len(),
            b == s@.subrange(start as int, n as int),
            forall|j: int| start <= j < ei ==> !is_exp_byte(#[trigger] s@[j]),
        decreases n - ei,
    {
        ei = ei + 1;
    }
    proof {
        assert(forall|j: int| 0 <= j < ei - start ==> !is_exp_byte(#[trigger] b[j]));
        if ei < n {
            assert(b[ei - start] == s@[ei as int]);
        }
        lemma_first_exp_idx(b, ei - start);
    }
    let ghost mant = b.subrange(0, ei - start);
    // Locate the decimal point within the mantissa.
    let mut dp: usize = start;
    while dp < ei && s[dp] != 46
        invariant
            start <= dp <= ei <= n,
            n == s@.len(),
            b == s@.subrange(start as int, n as int),
            mant == b.subrange(0, ei - start),
            forall|j: int| start <= j < dp ==> !is_dot_byte(#[trigger] s@[j]),
        decreases ei - dp,
    {
        dp = dp + 1;
    }
    proof {
        assert(forall|j: int| 0 <= j < dp - start ==> mant[j] == s@[j + start]);
        if dp < ei {
            assert(mant[dp - start] == s@[dp as int]);
        }
        lemma_first_dot_idx(mant, dp - start);
    }
    // Check the digits of the mantissa around the point.
    let mut digit_count: usize = 0;
    let mut k: usize = start;
    while k < ei
        invariant
            start <= k <= ei <= n,
            start <= dp <= ei,
            n == s@.len(),
            b == s@.subrange(start as int, n as int),
            b == int_body(s@),
            mant == b.subrange(0, ei - start),
            first_dot_idx(mant) == dp - start,
            first_exp_idx(b) == ei - start,
            !is_special_word(b),
            forall|j: int|
                start <= j < k && j != dp ==> is_digit(#[trigger] s@[j]),
            digit_count == if k <= dp {
                k - start
            } else {
                k - start - 1
            },
        decreases ei - k,
    {
        if k == dp {
            k = k + 1;
            continue;
        }
        let c = s[k];
        if c < 48 || c > 57 {
            proof {
                assert(mant[k - start] == s@[k as int]);
                if dp - start == mant.len() {
                    assert(!all_digits(mant));
                } else {
                    if k < dp {
                        let pre = mant.subrange(0, dp - start);
                        assert(pre[k - start] == mant[k - start]);
                        assert(!all_digits(pre));
                    } else {
                        let post = mant.subrange(dp - start + 1, mant.len() as int);
                        assert(post[k - dp - 1] == mant[k - start]);
                        assert(!all_digits(post));
                    }
                }
                assert(!is_mantissa(mant));
                assert(!is_number_text(b));
            }
            return false;
        }
        digit_count = digit_count + 1;
        k = k + 1;
    }
    if digit_count == 0 {
        proof {
            if dp - start == mant.len() {
                assert(mant.len() == 0);
            } else {
                let pre = mant.subrange(0, dp - start);
                let post = mant.subrange(dp - start + 1, mant.len() as int);
                assert(pre.len() == 0);
                assert(post.len() == 0);
            }
            assert(!is_mantissa(mant));
            assert(!is_number_text(b));
        }
        return false;
    }
    proof {
        if dp - start == mant.len() {
            assert(forall|j: int| 0 <= j < mant.len() ==> is_digit(#[trigger] mant[j]));
            assert(all_digits(mant));
        } else {
            let pre = mant.subrange(0, dp - start);
            let post = mant.subrange(dp - start + 1, mant.len() as int);
            assert(forall|j: int| 0 <= j < pre.len() ==> is_digit(#[trigger] pre[j]));
            assert(forall|j: int| 0 <= j < post.len() ==> is_digit(#[trigger] post[j]));
            assert(pre.len() + post.len() >= 1);
        }
        assert(is_mantissa(mant));
    }
    // Check the exponent part, when present.
    if ei == n {
        proof {
            assert(is_number_text(b));
        }
        return true;
    }
    let ghost epart = b.subrange(ei - start, b.len() as int);
    proof {
        assert(epart[0] == s@[ei as int]);
        assert(is_exp_byte(epart[0]));
    }
    let es: usize = if ei + 1 < n && (s[ei + 1] == 43 || s[ei + 1] == 45) {
        ei + 2
    } else {
        ei + 1
    };
    proof {
        assert(epart.drop_first() =~= s@.subrange(ei + 1, n as int));
        assert(int_body(epart.drop_first()) =~= s@.subrange(es as int, n as int));
    }
    if es == n {
        proof {
            assert(int_body(epart.drop_first()).len() == 0);
            assert(!is_exp_part(epart));
            assert(!is_number_text(b));
        }
        return false;
    }
    let mut q: usize = es;
    while q < n
        invariant
            es <= q <= n,
            start <= ei < n,
            ei + 1 <= es,
            n == s@.len(),
            b == s@.subrange(start as int, n as int),
            b == int_body(s@),
            epart == b.subrange(ei - start, b.len() as int),
            int_body(epart.drop_first()) == s@.subrange(es as int, n as int),
            first_exp_idx(b) == ei - start,
            !is_special_word(b),
            forall|j: int| es <= j < q ==> is_digit(#[trigger] s@[j]),
        decreases n - q,
    {
        let c = s[q];
        if c < 48 || c > 57 {
            proof {
                let body = int_body(epart.drop_first());
                assert(body[q - es] == s@[q as int]);
                assert(!all_digits(body));
                assert(!is_exp_part(epart));
                assert(!is_number_text(b));
            }
            return false;
        }
        q = q + 1;
    }
    proof {
        let body = int_body(epart.drop_first());
        assert(forall|j: int| 0 <= j < body.len() ==> is_digit(#[trigger] body[j]));
        assert(is_signed_digits(epart.drop_first()));
        assert(is_exp_part(epart));
        assert(b.subrange(ei - start, b.len() as int) == epart);
        assert(is_number_text(b));
    }
    true
}

} // verus!
