//! The HTTP header values a download reads and writes.
use vstd::prelude::*;
use crate::error::DlMgrSetupError;

verus! {

/// A byte that an HTTP header value may hold and still read as text:
/// visible ASCII or a tab.
pub open spec fn is_visible_ascii(b: u8) -> bool {
    (32 <= b && b < 127) || b == 9
}

pub open spec fn is_digit(b: u8) -> bool {
    48 <= b <= 57
}

/// The number that a run of decimal digits stands for.
pub open spec fn digits_value(d: Seq<u8>) -> nat
    decreases d.len(),
{
    if d.len() == 0 {
        0
    } else {
        digits_value(d.drop_last()) * 10 + (d.last() - 48) as nat
    }
}

pub open spec fn all_digits(d: Seq<u8>) -> bool {
    forall|i: int| 0 <= i < d.len() ==> #[trigger] is_digit(d[i])
}

/// The text after an optional leading `+`.
pub open spec fn digits_part(s: Seq<u8>) -> Seq<u8> {
    if s.len() > 0 && s[0] == 43 {
        s.drop_first()
    } else {
        s
    }
}

/// What `u64::from_str` makes of `s`: an optional `+`, then at least one
/// digit and nothing else, with a value that fits in 64 bits.
pub open spec fn parse_u64_text(s: Seq<u8>) -> Option<u64> {
    let d = digits_part(s);
    if d.len() > 0 && all_digits(d) && digits_value(d) <= u64::MAX {
        Some(digits_value(d) as u64)
    } else {
        None
    }
}

/// The decimal digits of `n`, without leading zeros.
pub open spec fn decimal_text(n: nat) -> Seq<u8>
    decreases n,
{
    if n < 10 {
        seq![(48 + n) as u8]
    } else {
        decimal_text(n / 10) + seq![(48 + n % 10) as u8]
    }
}

/// The number a header value states: its bytes must be text, and that text a
/// decimal number as `u64::from_str` reads it.
pub open spec fn header_u64(v: Seq<u8>) -> Option<u64> {
    if forall|i: int| 0 <= i < v.len() ==> is_visible_ascii(#[trigger] v[i]) {
        parse_u64_text(v)
    } else {
        None
    }
}

/// The value of a `Range` header that asks for bytes `offset` to `last`, both included.
pub open spec fn range_header_text(offset: nat, last: nat) -> Seq<u8> {
    seq![98u8, 121, 116, 101, 115, 61] + decimal_text(offset) + seq![45u8] + decimal_text(last)
}

/// The value `none`, with which a server says it takes no range requests.
pub open spec fn none_text() -> Seq<u8> {
    seq![110u8, 111, 110, 101]
}

/// Whether a server takes range requests, from its `Accept-Ranges` header:
/// any value but `none` says it does.
pub fn detect_range_support(accept_ranges: Option<&[u8]>) -> (r: bool)
    ensures
        r == (accept_ranges matches Some(v) && v@ != none_text()),
{
    match accept_ranges {
        Some(v) => {
            if v.len() != 4 {
                return true;
            }
            let same = v[0] == 110 && v[1] == 111 && v[2] == 110 && v[3] == 101;
            proof {
                if same {
                    assert(v@ =~= none_text());
                } else {
                    assert(v@ != none_text()) by {
                        if v@ == none_text() {
                            assert(v@[0] == none_text()[0]);
                            assert(v@[1] == none_text()[1]);
                            assert(v@[2] == none_text()[2]);
                            assert(v@[3] == none_text()[3]);
                        }
                    }
                }
            }
            !same
        },
        None => false,
    }
}

/// Whether the answer to a request for the first byte shows that the server
/// honours ranges: only `206 Partial Content` does.
pub fn probe_confirms_range_support(status: u16) -> (r: bool)
    ensures
        r == (status == 206),
{
    status == 206
}

proof fn lemma_digits_value_prefix(d: Seq<u8>, k: int)
    requires
        0 <= k <= d.len(),
        forall|i: int| 0 <= i < d.len() ==> #[trigger] is_digit(d[i]),
    ensures
        digits_value(d.take(k)) <= digits_value(d),
    decreases d.len() - k,
{
    if k < d.len() {
        lemma_digits_value_prefix(d, k + 1);
        assert(d.take(k + 1).drop_last() =~= d.take(k));
        assert(is_digit(d[k]));
    } else {
        assert(d.take(k) =~= d);
    }
}

/// The number a header value states, read as `u64::from_str` reads it:
/// `None` when the bytes are not that text.
pub fn parse_u64_bytes(s: &[u8]) -> (r: Option<u64>)
    ensures
        r == parse_u64_text(s@),
{
    let start: usize = if s.len() > 0 && s[0] == 43 {
        1
    } else {
        0
    };
    let ghost d = digits_part(s@);
    assert(d =~= s@.subrange(start as int, s@.len() as int));
    if start == s.len() {
        return None;
    }
    let mut acc: u64 = 0;
    let mut i: usize = start;
    while i < s.len()
        invariant
            start <= i <= s.len(),
            d =~= s@.subrange(start as int, s@.len() as int),
            d == digits_part(s@),
            acc == digits_value(d.take(i - start)),
            forall|j: int| 0 <= j < i - start ==> #[trigger] is_digit(d[j]),
        decreases s.len() - i,
    {
        let b = s[i];
        if b < 48 || b > 57 {
            assert(d[i - start] == b);
            assert(!is_digit(d[i - start]));
            assert(!all_digits(d));
            assert(parse_u64_text(s@) is None);
            return None;
        }
        let digit: u64 = (b - 48) as u64;
        assert(d.take(i - start + 1).drop_last() =~= d.take(i - start));
        if acc > 1844674407370955161 || (acc == 1844674407370955161 && digit > 5) {
            assert(is_digit(d[i - start]));
            assert(d.take(i - start + 1).last() == b);
            assert(digits_value(d.take(i - start + 1)) == acc * 10 + digit);
            assert(acc * 10 + digit > u64::MAX) by (nonlinear_arith)
                requires
                    acc > 1844674407370955161 || (acc == 1844674407370955161 && digit > 5),
            ;
            proof {
                if all_digits(d) {
                    lemma_digits_value_prefix(d, i - start + 1);
                    assert(digits_value(d) > u64::MAX);
                }
            }
            assert(parse_u64_text(s@) is None);
            return None;
        }
        assert(d.take(i - start + 1).last() == b);
        assert(acc * 10 + digit <= u64::MAX) by (nonlinear_arith)
            requires
                !(acc > 1844674407370955161 || (acc == 1844674407370955161 && digit > 5)),
                digit <= 9,
        ;
        acc = acc * 10 + digit;
        i = i + 1;
    }
    assert(d.take(d.len() as int) =~= d);
    Some(acc)
}

/// The length a `Content-Length` header states; a missing header, or one that
/// does not read as a decimal number, is an error.
pub fn extract_content_length(value: Option<&[u8]>) -> (r: Result<u64, DlMgrSetupError>)
    ensures
        r is Ok <==> (value matches Some(v) && header_u64(v@) is Some),
        r matches Ok(n) ==> value matches Some(v) && header_u64(v@) == Some(n),
        r is Err ==> r matches Err(DlMgrSetupError::NoContentLengthHeader),
{
    match value {
        None => Err(DlMgrSetupError::NoContentLengthHeader),
        Some(v) => {
            let mut i: usize = 0;
            while i < v.len()
                invariant
                    i <= v.len(),
                    value == Some(v),
                    forall|j: int| 0 <= j < i ==> is_visible_ascii(#[trigger] v@[j]),
                decreases v.len() - i,
            {
                let b = v[i];
                if !((32 <= b && b < 127) || b == 9) {
                    assert(!is_visible_ascii(v@[i as int]));
                    assert(header_u64(v@) is None);
                    return Err(DlMgrSetupError::NoContentLengthHeader);
                }
                i = i + 1;
            }
            match parse_u64_bytes(v) {
                Some(n) => Ok(n),
                None => Err(DlMgrSetupError::NoContentLengthHeader),
            }
        },
    }
}

/// Appends the decimal digits of `n`.
fn push_decimal(out: &mut Vec<u8>, n: u64)
    ensures
        final(out)@ == old(out)@ + decimal_text(n as nat),
    decreases n,
{
    if n >= 10 {
        push_decimal(out, n / 10);
    }
    out.push(48 + (n % 10) as u8);
    proof {
        if n >= 10 {
            assert(final(out)@ =~= old(out)@ + decimal_text(n as nat));
        } else {
            assert(final(out)@ =~= old(out)@ + decimal_text(n as nat));
        }
    }
}

/// The `Range` header value that asks for `len` bytes from `offset` on.
pub fn range_header_value(offset: u64, len: u64) -> (r: Vec<u8>)
    requires
        len > 0,
        offset + len - 1 <= u64::MAX,
    ensures
        r@ == range_header_text(offset as nat, (offset + len - 1) as nat),
{
    let mut out: Vec<u8> = Vec::new();
    out.push(98);
    out.push(121);
    out.push(116);
    out.push(101);
    out.push(115);
    out.push(61);
    push_decimal(&mut out, offset);
    out.push(45);
    push_decimal(&mut out, offset + (len - 1));
    assert(out@ =~= range_header_text(offset as nat, (offset + len - 1) as nat));
    out
}

/// Decimal text reads back as the number it was written from: the numbers in a
/// `Range` header this library writes are the ones `u64::from_str`, and so
/// `extract_content_length`, would read from them.
pub proof fn lemma_decimal_roundtrip(n: u64)
    ensures
        decimal_text(n as nat).len() > 0,
        all_digits(decimal_text(n as nat)),
        digits_value(decimal_text(n as nat)) == n,
        parse_u64_text(decimal_text(n as nat)) == Some(n),
        header_u64(decimal_text(n as nat)) == Some(n),
    decreases n,
{
    let t = decimal_text(n as nat);
    if n >= 10 {
        let q = (n / 10) as u64;
        lemma_decimal_roundtrip(q);
        let p = decimal_text(q as nat);
        assert(t == p + seq![(48 + n % 10) as u8]);
        assert(t.drop_last() =~= p);
        assert forall|i: int| 0 <= i < t.len() implies #[trigger] is_digit(t[i]) by {
            if i < p.len() {
                assert(t[i] == p[i]);
            }
        }
        assert(t.last() == (48 + n % 10) as u8);
        assert(digits_value(t) == digits_value(p) * 10 + (n % 10));
        assert(digits_value(t) == n);
        assert(is_digit(t[0]));
    } else {
        assert(t.drop_last() =~= Seq::<u8>::empty());
        assert(t.last() == (48 + n) as u8);
        assert(digits_value(t.drop_last()) == 0);
        assert(digits_value(t) == n);
        assert(is_digit(t[0]));
    }
    assert(digits_part(t) == t);
    assert forall|i: int| 0 <= i < t.len() implies is_visible_ascii(#[trigger] t[i]) by {
        assert(is_digit(t[i]));
    }
}

} // verus!
