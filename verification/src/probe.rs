use vstd::prelude::*;

verus! {

/// What the metadata probe learned about the resource: its size in bytes and
/// whether the server honours byte-range requests.
#[derive(Debug)]
pub struct Resource {
    pub url: String,
    pub total_size: u64,
    pub supports_ranges: bool,
}

/// Why a probe, or the decision taken on its outcome, failed.
#[derive(Clone, Copy, PartialEq, Eq, Structural, Debug)]
pub enum ProbeError {
    /// The request could not be sent or completed.
    Unreachable,
    /// The probe got a non-success status code back.
    Server(u16),
    /// The server does not support byte-range requests.
    RangeUnsupported,
}

pub open spec fn is_ascii_digit(b: u8) -> bool {
    48 <= b <= 57
}

/// A non-empty run of decimal digits.
pub open spec fn is_digits(s: Seq<u8>) -> bool {
    s.len() > 0 && forall|i: int| 0 <= i < s.len() ==> is_ascii_digit(#[trigger] s[i])
}

/// The number the digit string denotes.
pub open spec fn dec_val(s: Seq<u8>) -> int
    decreases s.len(),
{
    if s.len() == 0 {
        0
    } else {
        dec_val(s.drop_last()) * 10 + (s.last() - 48)
    }
}

/// What a `Content-Length` header value counts for: its decimal value, or zero
/// where it is absent, not a digit string, or too large for the machine.
pub open spec fn spec_content_length(v: Option<Seq<u8>>) -> u64 {
    match v {
        Some(s) => if is_digits(s) && dec_val(s) <= u64::MAX {
            dec_val(s) as u64
        } else {
            0
        },
        None => 0,
    }
}

/// A header value as the contracts see it: the bytes, where one came at all.
pub open spec fn header_view(v: Option<Vec<u8>>) -> Option<Seq<u8>> {
    match v {
        Some(b) => Some(b@),
        None => None,
    }
}

/// The exact header value that announces range support.
pub open spec fn bytes_token() -> Seq<u8> {
    seq![98u8, 121u8, 116u8, 101u8, 115u8]
}

/// Whether an `Accept-Ranges` header value is exactly `bytes`; any other
/// value, or its absence, means ranges are unsupported.
pub open spec fn spec_supports_ranges(v: Option<Seq<u8>>) -> bool {
    v == Some(bytes_token())
}

/// Growing a digit string never shrinks its value.
proof fn lemma_dec_val_prefix_le(s: Seq<u8>, k: int)
    requires
        is_digits(s),
        0 <= k <= s.len(),
    ensures
        dec_val(s.take(k)) <= dec_val(s),
        dec_val(s.take(k)) >= 0,
    decreases s.len() - k,
{
    lemma_dec_val_nonneg(s.take(k));
    if k < s.len() {
        lemma_dec_val_prefix_le(s, k + 1);
        assert(s.take(k + 1).drop_last() =~= s.take(k));
        assert(s.take(k + 1).last() == s[k]);
        lemma_dec_val_nonneg(s.take(k));
        assert(dec_val(s.take(k + 1)) == dec_val(s.take(k)) * 10 + (s[k] - 48));
        assert(dec_val(s.take(k)) * 10 >= dec_val(s.take(k))) by (nonlinear_arith)
            requires
                dec_val(s.take(k)) >= 0,
        ;
    } else {
        assert(s.take(k) =~= s);
    }
}

/// A digit string never denotes a negative number.
proof fn lemma_dec_val_nonneg(s: Seq<u8>)
    requires
        forall|i: int| 0 <= i < s.len() ==> is_ascii_digit(#[trigger] s[i]),
    ensures
        dec_val(s) >= 0,
    decreases s.len(),
{
    if s.len() > 0 {
        lemma_dec_val_nonneg(s.drop_last());
        assert(dec_val(s.drop_last()) * 10 >= 0) by (nonlinear_arith)
            requires
                dec_val(s.drop_last()) >= 0,
        ;
    }
}

/// Reads a decimal `Content-Length` value; anything absent, malformed or
/// oversized counts as zero.
pub fn parse_content_length(v: &Option<Vec<u8>>) -> (r: u64)
    ensures
        r == spec_content_length(header_view(*v)),
{
    match v {
        Some(b) => parse_u64(b),
        None => 0,
    }
}

/// Reads a digit string as a machine word; a malformed or oversized string
/// counts as zero.
pub fn parse_u64(s: &Vec<u8>) -> (r: u64)
    ensures
        r == (if is_digits(s@) && dec_val(s@) <= u64::MAX {
            dec_val(s@) as u64
        } else {
            0u64
        }),
{
    if s.len() == 0 {
        return 0;
    }
    let mut acc: u64 = 0;
    let mut i: usize = 0;
    while i < s.len()
        invariant
            0 < s@.len(),
            0 <= i <= s@.len(),
            forall|j: int| 0 <= j < i ==> is_ascii_digit(#[trigger] s@[j]),
            acc == dec_val(s@.take(i as int)),
        decreases s@.len() - i,
    {
        let b = s[i];
        if !(48 <= b && b <= 57) {
            assert(!is_digits(s@));
            return 0;
        }
        let d: u64 = (b - 48) as u64;
        proof {
            assert(s@.take(i + 1).drop_last() =~= s@.take(i as int));
            assert(s@.take(i + 1).last() == s@[i as int]);
        }
        let acc10 = match acc.checked_mul(10) {
            Some(x) => x,
            None => {
                proof {
                    overflow_means_unparsable(s@, i as int, acc, d);
                }
                return 0;
            },
        };
        let next = match acc10.checked_add(d) {
            Some(x) => x,
            None => {
                proof {
                    overflow_means_unparsable(s@, i as int, acc, d);
                }
                return 0;
            },
        };
        acc = next;
        i = i + 1;
    }
    assert(s@.take(i as int) =~= s@);
    acc
}

/// If the running value already exceeds the machine word at some digit, the
/// whole string does too, so it counts as zero.
proof fn overflow_means_unparsable(s: Seq<u8>, i: int, acc: u64, d: u64)
    requires
        0 <= i < s.len(),
        forall|j: int| 0 <= j < i ==> is_ascii_digit(#[trigger] s[j]),
        is_ascii_digit(s[i]),
        acc == dec_val(s.take(i)),
        d == s[i] - 48,
        acc * 10 + d > u64::MAX,
    ensures
        is_digits(s) ==> dec_val(s) > u64::MAX,
{
    if is_digits(s) {
        assert(s.take(i + 1).drop_last() =~= s.take(i));
        assert(s.take(i + 1).last() == s[i]);
        assert(dec_val(s.take(i + 1)) == acc * 10 + d);
        lemma_dec_val_prefix_le(s, i + 1);
    }
}

/// Whether an `Accept-Ranges` header value is exactly `bytes`.
pub fn accepts_byte_ranges(v: &Option<Vec<u8>>) -> (r: bool)
    ensures
        r == spec_supports_ranges(header_view(*v)),
{
    match v {
        None => false,
        Some(b) => {
            if b.len() != 5 {
                assert(b@ != bytes_token());
                return false;
            }
            let r = b[0] == 98 && b[1] == 121 && b[2] == 116 && b[3] == 101 && b[4] == 115;
            proof {
                if r {
                    assert(b@ =~= bytes_token());
                } else {
                    assert(b@ != bytes_token());
                }
            }
            r
        },
    }
}

/// Turns one probe response — status code and the two headers of interest —
/// into the `Resource` the rest of the pipeline works on. A non-success status
/// is a `Server` error; a missing or malformed `Content-Length` counts as
/// zero; range support requires the header value to be exactly `bytes`.
pub fn evaluate_probe(
    url: String,
    status: u16,
    accept_ranges: Option<Vec<u8>>,
    content_length: Option<Vec<u8>>,
) -> (r: Result<Resource, ProbeError>)
    ensures
        (200 <= status < 300) <==> r is Ok,
        r matches Err(e) ==> e == ProbeError::Server(status),
        r matches Ok(res) ==> {
            &&& res.url@ == url@
            &&& res.total_size == spec_content_length(header_view(content_length))
            &&& res.supports_ranges == spec_supports_ranges(header_view(accept_ranges))
        },
{
    if !(200 <= status && status < 300) {
        return Err(ProbeError::Server(status));
    }
    let total_size = parse_content_length(&content_length);
    let supports_ranges = accepts_byte_ranges(&accept_ranges);
    Ok(Resource { url, total_size, supports_ranges })
}

} // verus!
