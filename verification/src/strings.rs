//! Small string helpers: decimal rendering, path joining, and turning
//! validated bytes into `String`s.

use vstd::prelude::*;

use vstd::string::{StrSliceExecFns, StringExecFns};
use vstd::utf8::{decode_utf8, valid_utf8};

verus! {

/// The decimal digits of `n`, most significant first, as ASCII bytes.
pub open spec fn dec_digits(n: u64) -> Seq<u8>
    decreases n,
{
    if n < 10 {
        seq![(48 + n) as u8]
    } else {
        dec_digits(n / 10).push((48 + n % 10) as u8)
    }
}

/// The characters of `n` rendered in decimal.
pub open spec fn dec_chars(n: u64) -> Seq<char> {
    decode_utf8(dec_digits(n))
}

/// All decimal digit bytes are ASCII.
pub proof fn lemma_dec_digits_ascii(n: u64)
    ensures
        forall|i: int| 0 <= i < dec_digits(n).len() ==> #[trigger] dec_digits(n)[i] < 128,
    decreases n,
{
    assert(n % 10 < 10) by (nonlinear_arith);
    if n >= 10 {
        lemma_dec_digits_ascii(n / 10);
        assert forall|i: int| 0 <= i < dec_digits(n).len() implies #[trigger] dec_digits(n)[i]
            < 128 by {
            if i < dec_digits(n / 10).len() {
                assert(dec_digits(n)[i] == dec_digits(n / 10)[i]);
            } else {
                assert(dec_digits(n)[i] == (48 + n % 10) as u8);
            }
        }
    } else {
        assert(dec_digits(n)[0] == (48 + n) as u8);
    }
}

/// ASCII bytes are valid UTF-8.
pub proof fn lemma_ascii_valid(s: Seq<u8>)
    requires
        forall|i: int| 0 <= i < s.len() ==> s[i] < 128,
    ensures
        valid_utf8(s),
    decreases s.len(),
{
    if s.len() > 0 {
        let b = s[0];
        assert(vstd::utf8::is_leading_byte_width_1(b));
        assert((b & 0x7f) <= 0x7f) by (bit_vector);
        assert(vstd::utf8::length_of_first_scalar(s) == 1);
        assert(vstd::utf8::valid_first_scalar(s));
        assert(vstd::utf8::pop_first_scalar(s) =~= s.drop_first());
        lemma_ascii_valid(s.drop_first());
    }
}

/// Relies on `String::from_utf8`: it succeeds exactly on valid UTF-8 and
/// returns the string of the bytes' characters.
#[verifier::external_body]
pub fn bytes_to_string(v: Vec<u8>) -> (r: Option<String>)
    ensures
        r is Some <==> valid_utf8(v@),
        r matches Some(s) ==> s@ == decode_utf8(v@),
{
    String::from_utf8(v).ok()
}

/// Append the decimal digits of `n` to a byte buffer.
pub fn push_dec(n: u64, out: &mut Vec<u8>)
    ensures
        final(out)@ == old(out)@ + dec_digits(n),
    decreases n,
{
    if n >= 10 {
        proof {
            assert(n / 10 < n) by (nonlinear_arith)
                requires
                    n >= 10,
            ;
        }
        push_dec(n / 10, out);
    }
    let digit = (n % 10) as u8 + 48;
    proof {
        assert(n % 10 < 10) by (nonlinear_arith);
    }
    out.push(digit);
    assert(out@ =~= old(out)@ + dec_digits(n));
}

/// Render `n` in decimal.
pub fn u64_to_string(n: u64) -> (r: String)
    ensures
        r@ == dec_chars(n),
{
    let mut out: Vec<u8> = Vec::new();
    push_dec(n, &mut out);
    proof {
        lemma_dec_digits_ascii(n);
        lemma_ascii_valid(out@);
    }
    bytes_to_string(out).unwrap()
}

/// Whether a string starts with the given prefix.
pub fn str_starts_with(s: &str, prefix: &str) -> (r: bool)
    ensures
        r == prefix@.is_prefix_of(s@),
{
    let n = s.unicode_len();
    let m = prefix.unicode_len();
    if m > n {
        return false;
    }
    let mut i: usize = 0;
    while i < m
        invariant
            i <= m <= n,
            m == prefix@.len(),
            n == s@.len(),
            forall|j: int| 0 <= j < i ==> s@[j] == prefix@[j],
        decreases m - i,
    {
        if s.get_char(i) != prefix.get_char(i) {
            assert(!prefix@.is_prefix_of(s@));
            return false;
        }
        i += 1;
    }
    assert(s@.subrange(0, m as int) =~= prefix@);
    true
}

/// Compare two byte buffers for equality.
pub fn bytes_eq(a: &Vec<u8>, b: &Vec<u8>) -> (r: bool)
    ensures
        r == (a@ == b@),
{
    if a.len() != b.len() {
        return false;
    }
    let mut i: usize = 0;
    while i < a.len()
        invariant
            i <= a@.len(),
            a@.len() == b@.len(),
            forall|j: int| 0 <= j < i ==> a@[j] == b@[j],
        decreases a@.len() - i,
    {
        if a[i] != b[i] {
            return false;
        }
        i += 1;
    }
    assert(a@ =~= b@);
    true
}

/// Path segments joined by `/` separators.
pub open spec fn join_path(segs: Seq<Seq<char>>) -> Seq<char>
    decreases segs.len(),
{
    if segs.len() == 0 {
        Seq::empty()
    } else if segs.len() == 1 {
        segs[0]
    } else {
        join_path(segs.drop_last()) + "/"@ + segs.last()
    }
}

/// Join path segments into one `/`-separated string.
pub fn join_segments(segs: &Vec<String>) -> (r: String)
    ensures
        r@ == join_path(segs.deep_view()),
{
    let mut r = String::new();
    let mut i: usize = 0;
    while i < segs.len()
        invariant
            i <= segs@.len(),
            r@ == join_path(segs.deep_view().take(i as int)),
        decreases segs@.len() - i,
    {
        if i > 0 {
            r.append("/");
        }
        r.append(segs[i].as_str());
        proof {
            let pre = segs.deep_view().take(i as int);
            let cur = segs.deep_view().take(i + 1 as int);
            assert(cur.drop_last() =~= pre);
            assert(cur.last() == segs.deep_view()[i as int]);
            if i == 0 {
                assert(cur.len() == 1);
                assert(r@ =~= join_path(cur));
            } else {
                assert(r@ =~= join_path(cur));
            }
        }
        i += 1;
    }
    assert(segs.deep_view().take(segs.deep_view().len() as int) =~= segs.deep_view());
    r
}

} // verus!
