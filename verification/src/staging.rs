use vstd::prelude::*;
use crate::probe::dec_val;

verus! {

/// The decimal digits of `n`, most significant first.
pub open spec fn spec_decimal(n: nat) -> Seq<u8>
    decreases n,
{
    if n < 10 {
        seq![(48 + n) as u8]
    } else {
        spec_decimal(n / 10) + seq![(48 + n % 10) as u8]
    }
}

/// The staging file name for one chunk index: `part` followed by the decimal
/// index, exactly as the chunk's private file is named inside the staging
/// directory.
pub open spec fn spec_chunk_file_name(index: u32) -> Seq<u8> {
    seq![112u8, 97u8, 114u8, 116u8] + spec_decimal(index as nat)
}

/// Renders `n` in decimal, most significant digit first.
pub fn render_decimal(n: u64) -> (r: Vec<u8>)
    ensures
        r@ == spec_decimal(n as nat),
{
    let mut rev: Vec<u8> = Vec::new();
    let mut m: u64 = n;
    while m >= 10
        invariant
            spec_decimal(n as nat) == spec_decimal(m as nat) + rev@.reverse(),
        decreases m,
    {
        let d: u8 = (m % 10) as u8 + 48;
        proof {
            assert(rev@.push(d).reverse() =~= seq![d] + rev@.reverse());
            assert(spec_decimal(m as nat) + rev@.reverse() == spec_decimal((m / 10) as nat) + (
            seq![d] + rev@.reverse()));
        }
        rev.push(d);
        m = m / 10;
    }
    let d: u8 = m as u8 + 48;
    proof {
        assert(rev@.push(d).reverse() =~= seq![d] + rev@.reverse());
        assert(spec_decimal(m as nat) =~= seq![d]);
        assert(spec_decimal(m as nat) + rev@.reverse() == seq![d] + rev@.reverse());
    }
    rev.push(d);
    let ghost all = rev@;
    let mut out: Vec<u8> = Vec::new();
    let mut k: usize = 0;
    while k < rev.len()
        invariant
            rev@ == all,
            0 <= k <= all.len(),
            out@ == all.reverse().take(k as int),
        decreases all.len() - k,
    {
        let b = rev[rev.len() - 1 - k];
        proof {
            assert(all.reverse()[k as int] == all[all.len() - 1 - k]);
            assert(all.reverse().take(k + 1) =~= all.reverse().take(k as int).push(
                all.reverse()[k as int],
            ));
        }
        out.push(b);
        k = k + 1;
    }
    proof {
        assert(all.reverse().take(all.len() as int) =~= all.reverse());
    }
    out
}

/// The name of chunk `index`'s staging file.
pub fn chunk_file_name(index: u32) -> (r: Vec<u8>)
    ensures
        r@ == spec_chunk_file_name(index),
{
    let mut out: Vec<u8> = Vec::new();
    out.push(112);
    out.push(97);
    out.push(114);
    out.push(116);
    let mut digits = render_decimal(index as u64);
    out.append(&mut digits);
    proof {
        assert(out@ =~= spec_chunk_file_name(index));
    }
    out
}

/// A decimal rendering is all digits and denotes the number it was made from.
proof fn lemma_decimal_value(n: nat)
    ensures
        spec_decimal(n).len() >= 1,
        forall|i: int|
            0 <= i < spec_decimal(n).len() ==> 48 <= #[trigger] spec_decimal(n)[i] <= 57,
        dec_val(spec_decimal(n)) == n,
    decreases n,
{
    if n < 10 {
        let s = spec_decimal(n);
        assert(s.len() == 1);
        assert(s.drop_last() =~= Seq::<u8>::empty());
        assert(dec_val(s.drop_last()) == 0);
        assert(s.last() == (48 + n) as u8);
        assert(dec_val(s) == dec_val(s.drop_last()) * 10 + (s.last() - 48));
    } else {
        lemma_decimal_value(n / 10);
        let s = spec_decimal(n);
        assert(s.drop_last() =~= spec_decimal(n / 10));
        assert(s.last() == 48 + n % 10);
        assert(dec_val(s) == (n / 10) * 10 + n % 10);
        assert((n / 10) * 10 + n % 10 == n) by (nonlinear_arith);
    }
}

/// Staging names are collision-free: two different chunk indices always get
/// two different file names.
pub proof fn lemma_chunk_file_names_distinct(a: u32, b: u32)
    requires
        a != b,
    ensures
        spec_chunk_file_name(a) != spec_chunk_file_name(b),
{
    lemma_decimal_value(a as nat);
    lemma_decimal_value(b as nat);
    if spec_chunk_file_name(a) == spec_chunk_file_name(b) {
        let sa = spec_chunk_file_name(a);
        let sb = spec_chunk_file_name(b);
        assert(sa.subrange(4, sa.len() as int) =~= spec_decimal(a as nat));
        assert(sb.subrange(4, sb.len() as int) =~= spec_decimal(b as nat));
        assert(dec_val(spec_decimal(a as nat)) == dec_val(spec_decimal(b as nat)));
    }
}

} // verus!
