use vstd::prelude::*;

verus! {

/// The value of an ASCII hexadecimal digit, or a negative number for any
/// other byte.
pub open spec fn hex_val(b: u8) -> int {
    if 48 <= b <= 57 {
        b - 48
    } else if 97 <= b <= 102 {
        b - 87
    } else if 65 <= b <= 70 {
        b - 55
    } else {
        -1
    }
}

/// Percent-decoding as the `percent-encoding` crate performs it: a `%`
/// followed by two hexadecimal digits becomes one byte; a `%` followed by
/// anything else passes through unchanged, as does every other byte.
pub open spec fn spec_percent_decode(s: Seq<u8>) -> Seq<u8>
    decreases s.len(),
{
    if s.len() == 0 {
        Seq::empty()
    } else if s[0] == 37 && s.len() >= 3 && hex_val(s[1]) >= 0 && hex_val(s[2]) >= 0 {
        seq![(hex_val(s[1]) * 16 + hex_val(s[2])) as u8] + spec_percent_decode(s.skip(3))
    } else {
        seq![s[0]] + spec_percent_decode(s.skip(1))
    }
}

/// Relies on percent_encoding::percent_decode: each `%XX` escape with two
/// hexadecimal digits decodes to one byte and everything else passes through,
/// a function of the input bytes alone.
#[verifier::external_body]
fn percent_decode_bytes(raw: &Vec<u8>) -> (r: Vec<u8>)
    ensures
        r@ == spec_percent_decode(raw@),
{
    percent_encoding::percent_decode(raw.as_slice()).collect()
}

/// The characters of the bytes read as UTF-8, each maximal invalid
/// subsequence read as one replacement character.
pub uninterp spec fn lossy_chars(s: Seq<u8>) -> Seq<char>;

/// Relies on String::from_utf8_lossy: valid UTF-8 sequences decode to their
/// characters and each maximal invalid subsequence becomes one replacement
/// character, a function of the input bytes alone.
#[verifier::external_body]
fn utf8_lossy_chars(bytes: &Vec<u8>) -> (r: Vec<char>)
    ensures
        r@ == lossy_chars(bytes@),
{
    String::from_utf8_lossy(bytes.as_slice()).chars().collect()
}

/// The characters a file stem may keep: ASCII letters, digits and `-`.
/// Every other character is replaced by `_`.
pub open spec fn keep_char(c: char) -> bool {
    (48 <= c as u32 <= 57) || (65 <= c as u32 <= 90) || (97 <= c as u32 <= 122) || c as u32 == 45
}

/// Each character masked to the kept alphabet: a kept character becomes its
/// ASCII byte, any other — however many bytes it took — one underscore.
pub open spec fn spec_mask_chars(cs: Seq<char>) -> Seq<u8> {
    cs.map(|i: int, c: char| if keep_char(c) { (c as u32) as u8 } else { 95u8 })
}

/// The sequence with its trailing underscores removed.
pub open spec fn spec_trim_trailing(s: Seq<u8>) -> Seq<u8>
    decreases s.len(),
{
    if s.len() > 0 && s.last() == 95 {
        spec_trim_trailing(s.drop_last())
    } else {
        s
    }
}

/// A safe stem: the percent-decoded bytes, read as UTF-8 characters, masked
/// per character to the kept alphabet, with trailing underscores trimmed.
pub open spec fn spec_safe_stem(raw: Seq<u8>) -> Seq<u8> {
    spec_trim_trailing(spec_mask_chars(lossy_chars(spec_percent_decode(raw))))
}

/// Percent-decodes a raw stem and makes it safe for a filename: of the
/// decoded bytes' characters, each one outside ASCII letters, digits and `-`
/// becomes one `_`, and trailing underscores are trimmed away.
pub fn sanitize_stem(raw: &Vec<u8>) -> (r: Vec<u8>)
    ensures
        r@ == spec_safe_stem(raw@),
{
    let decoded = percent_decode_bytes(raw);
    let chars = utf8_lossy_chars(&decoded);
    let mut out: Vec<u8> = Vec::new();
    let mut i: usize = 0;
    while i < chars.len()
        invariant
            0 <= i <= chars@.len(),
            out@ == spec_mask_chars(chars@.take(i as int)),
        decreases chars@.len() - i,
    {
        let code: u32 = chars[i] as u32;
        let kept: u8 = if (48 <= code && code <= 57) || (65 <= code && code <= 90) || (97 <= code
            && code <= 122) || code == 45 {
            code as u8
        } else {
            95
        };
        out.push(kept);
        proof {
            assert(spec_mask_chars(chars@.take(i + 1)) =~= spec_mask_chars(
                chars@.take(i as int),
            ).push(kept));
        }
        i = i + 1;
    }
    proof {
        assert(chars@.take(chars@.len() as int) =~= chars@);
    }
    while out.len() > 0 && out[out.len() - 1] == 95
        invariant
            spec_trim_trailing(out@) == spec_safe_stem(raw@),
        decreases out@.len(),
    {
        out.pop();
    }
    out
}

pub open spec fn is_blank(b: u8) -> bool {
    b == 32 || b == 9
}

/// The sequence with its leading blanks removed.
pub open spec fn spec_trim_front(s: Seq<u8>) -> Seq<u8>
    decreases s.len(),
{
    if s.len() > 0 && is_blank(s[0]) {
        spec_trim_front(s.skip(1))
    } else {
        s
    }
}

/// The sequence with its trailing blanks removed.
pub open spec fn spec_trim_back(s: Seq<u8>) -> Seq<u8>
    decreases s.len(),
{
    if s.len() > 0 && is_blank(s.last()) {
        spec_trim_back(s.drop_last())
    } else {
        s
    }
}

/// The sequence with blanks removed from both ends. Header values hold only
/// visible ASCII, space and tab, so blank here means space or tab.
pub open spec fn spec_trim_blanks(s: Seq<u8>) -> Seq<u8> {
    spec_trim_front(spec_trim_back(s))
}

/// The parameter name that carries a filename in a `Content-Disposition`
/// header: the bytes of `filename=`.
pub open spec fn filename_prefix() -> Seq<u8> {
    seq![102u8, 105u8, 108u8, 101u8, 110u8, 97u8, 109u8, 101u8, 61u8]
}

/// What one `;`-separated segment of the header contributes: the rest of the
/// trimmed segment after a `filename=` prefix, or nothing.
pub open spec fn spec_segment_filename(seg: Seq<u8>) -> Option<Seq<u8>> {
    let t = spec_trim_blanks(seg);
    if t.len() >= 9 && t.take(9) == filename_prefix() {
        Some(t.skip(9))
    } else {
        None
    }
}

/// The position of the first `;`, or the whole length when there is none.
pub open spec fn spec_find_semi(s: Seq<u8>) -> nat
    decreases s.len(),
{
    if s.len() == 0 {
        0
    } else if s[0] == 59 {
        0
    } else {
        1 + spec_find_semi(s.skip(1))
    }
}

/// The filename a `Content-Disposition` header value names: the first
/// `;`-separated segment that, once trimmed of blanks, starts with
/// `filename=`, contributes what follows that prefix.
pub open spec fn spec_cd_filename(s: Seq<u8>) -> Option<Seq<u8>>
    decreases s.len(),
{
    let k = spec_find_semi(s) as int;
    let seg = s.take(k);
    if spec_segment_filename(seg) is Some {
        spec_segment_filename(seg)
    } else if k >= s.len() {
        None
    } else {
        spec_cd_filename(s.skip(k + 1))
    }
}

/// A scan that stops at the first `;`, or at the end, finds exactly
/// `spec_find_semi`.
proof fn lemma_find_semi(s: Seq<u8>, k: int)
    requires
        0 <= k <= s.len(),
        forall|j: int| 0 <= j < k ==> s[j] != 59,
        k < s.len() ==> s[k] == 59,
    ensures
        spec_find_semi(s) == k,
    decreases k,
{
    if k > 0 {
        lemma_find_semi(s.skip(1), k - 1);
    }
}

/// Retreating over trailing blanks computes `spec_trim_back`.
proof fn lemma_trim_back(seg: Seq<u8>, b: int)
    requires
        0 <= b <= seg.len(),
        forall|j: int| b <= j < seg.len() ==> is_blank(#[trigger] seg[j]),
        b > 0 ==> !is_blank(seg[b - 1]),
    ensures
        spec_trim_back(seg) == seg.take(b),
    decreases seg.len(),
{
    if seg.len() > b {
        lemma_trim_back(seg.drop_last(), b);
        assert(seg.drop_last().take(b) =~= seg.take(b));
    } else {
        assert(seg.take(b) =~= seg);
    }
}

/// Advancing over leading blanks computes `spec_trim_front`.
proof fn lemma_trim_front(t: Seq<u8>, a: int)
    requires
        0 <= a <= t.len(),
        forall|j: int| 0 <= j < a ==> is_blank(#[trigger] t[j]),
        a < t.len() ==> !is_blank(t[a]),
    ensures
        spec_trim_front(t) == t.skip(a),
    decreases a,
{
    if a > 0 {
        lemma_trim_front(t.skip(1), a - 1);
        assert(t.skip(1).skip(a - 1) =~= t.skip(a));
    } else {
        assert(t.skip(0) =~= t);
    }
}

/// Finds the filename a `Content-Disposition` header value names, exactly as
/// `spec_cd_filename` states it: the first `;`-separated segment whose
/// blank-trimmed form starts with `filename=` contributes the rest of that
/// form.
pub fn content_disposition_filename(header: &Vec<u8>) -> (r: Option<Vec<u8>>)
    ensures
        r matches Some(v) ==> spec_cd_filename(header@) == Some(v@),
        r is None ==> spec_cd_filename(header@) is None,
{
    let n = header.len();
    let mut pos: usize = 0;
    proof {
        assert(header@.skip(0) =~= header@);
    }
    loop
        invariant
            0 <= pos <= n,
            n == header@.len(),
            spec_cd_filename(header@) == spec_cd_filename(header@.skip(pos as int)),
        decreases n - pos + 1,
    {
        let ghost rem = header@.skip(pos as int);
        let (found, end) = segment_scan(header, pos);
        proof {
            assert(rem.take(spec_find_semi(rem) as int) =~= header@.subrange(
                pos as int,
                end as int,
            ));
        }
        if let Some(v) = found {
            return Some(v);
        }
        if end >= n {
            return None;
        }
        proof {
            assert(rem.skip((end - pos) + 1) =~= header@.skip(end + 1));
            assert(spec_cd_filename(rem) == spec_cd_filename(header@.skip(end + 1)));
        }
        pos = end + 1;
    }
}

/// Scans one `;`-separated segment from `pos`: hands back the segment's
/// filename contribution and the position of the `;` that ends it, or of the
/// header's end.
#[verifier::rlimit(60)]
fn segment_scan(header: &Vec<u8>, pos: usize) -> (r: (Option<Vec<u8>>, usize))
    requires
        pos <= header@.len(),
    ensures
        pos <= r.1 <= header@.len(),
        r.1 - pos == spec_find_semi(header@.skip(pos as int)),
        r.1 < header@.len() ==> header@[r.1 as int] == 59,
        ({
            let seg = header@.subrange(pos as int, r.1 as int);
            &&& (r.0 matches Some(v) ==> spec_segment_filename(seg) == Some(v@))
            &&& (r.0 is None ==> spec_segment_filename(seg) is None)
        }),
{
    let n = header.len();
    let ghost rem = header@.skip(pos as int);
    let mut end: usize = pos;
    while end < n && header[end] != 59
        invariant
            pos <= end <= n,
            n == header@.len(),
            forall|j: int| pos <= j < end ==> header@[j] != 59,
        decreases n - end,
    {
        end = end + 1;
    }
    proof {
        assert forall|j: int| 0 <= j < end - pos implies rem[j] != 59 by {
            assert(rem[j] == header@[pos + j]);
        }
        if end < n {
            assert(rem[end - pos] == header@[end as int]);
        }
        lemma_find_semi(rem, end - pos);
    }
    let ghost seg = rem.take((end - pos) as int);
    proof {
        assert(seg =~= header@.subrange(pos as int, end as int));
    }
    let mut b: usize = end;
        while b > pos && (header[b - 1] == 32 || header[b - 1] == 9)
            invariant
                pos <= b <= end <= n,
                n == header@.len(),
                forall|j: int| b <= j < end ==> is_blank(#[trigger] header@[j]),
            decreases b,
        {
            b = b - 1;
        }
        let mut a: usize = pos;
        while a < b && (header[a] == 32 || header[a] == 9)
            invariant
                pos <= a <= b,
                b <= end <= n,
                n == header@.len(),
                forall|j: int| pos <= j < a ==> is_blank(#[trigger] header@[j]),
            decreases b - a,
        {
            a = a + 1;
        }
        let ghost trimmed = header@.subrange(a as int, b as int);
        proof {
            assert forall|j: int| b - pos <= j < seg.len() implies is_blank(#[trigger] seg[j]) by {
                assert(seg[j] == header@[pos + j]);
            }
            if b > pos {
                assert(seg[b - pos - 1] == header@[b - 1]);
            }
            lemma_trim_back(seg, b - pos);
            let t = seg.take((b - pos) as int);
            assert(t =~= header@.subrange(pos as int, b as int));
            assert forall|j: int| 0 <= j < a - pos implies is_blank(#[trigger] t[j]) by {
                assert(t[j] == header@[pos + j]);
            }
            if a < b {
                assert(t[a - pos] == header@[a as int]);
            }
            lemma_trim_front(t, a - pos);
            assert(t.skip(a - pos) =~= trimmed);
            assert(spec_trim_blanks(seg) == trimmed);
        }
        if b - a >= 9 && header[a] == 102 && header[a + 1] == 105 && header[a + 2] == 108
            && header[a + 3] == 101 && header[a + 4] == 110 && header[a + 5] == 97
            && header[a + 6] == 109 && header[a + 7] == 101 && header[a + 8] == 61 {
            proof {
                assert(trimmed.take(9) =~= filename_prefix());
            }
            let mut out: Vec<u8> = Vec::new();
            let mut k: usize = a + 9;
            while k < b
                invariant
                    a + 9 <= k <= b <= n,
                    n == header@.len(),
                    out@ == header@.subrange(a + 9, k as int),
                decreases b - k,
            {
                out.push(header[k]);
                proof {
                    assert(header@.subrange(a + 9, k + 1) =~= header@.subrange(a + 9, k as int).push(
                        header@[k as int],
                    ));
                }
                k = k + 1;
            }
            proof {
                assert(trimmed.skip(9) =~= header@.subrange(a + 9, b as int));
                assert(spec_segment_filename(seg) == Some(out@));
            }
            return (Some(out), end);
        }
        proof {
            if trimmed.len() >= 9 && trimmed.take(9) == filename_prefix() {
                assert(trimmed[0] == header@[a as int] && trimmed.take(9)[0] == trimmed[0]);
                assert(header@[a as int] == 102);
                assert(header@[a + 1] == trimmed.take(9)[1] && trimmed.take(9)[1] == 105);
                assert(header@[a + 2] == trimmed.take(9)[2] && trimmed.take(9)[2] == 108);
                assert(header@[a + 3] == trimmed.take(9)[3] && trimmed.take(9)[3] == 101);
                assert(header@[a + 4] == trimmed.take(9)[4] && trimmed.take(9)[4] == 110);
                assert(header@[a + 5] == trimmed.take(9)[5] && trimmed.take(9)[5] == 97);
                assert(header@[a + 6] == trimmed.take(9)[6] && trimmed.take(9)[6] == 109);
                assert(header@[a + 7] == trimmed.take(9)[7] && trimmed.take(9)[7] == 101);
                assert(header@[a + 8] == trimmed.take(9)[8] && trimmed.take(9)[8] == 61);
                assert(false);
            }
            assert(spec_segment_filename(seg) is None);
        }
        (None, end)
}

/// The path with its trailing slashes removed.
pub open spec fn spec_strip_slashes(s: Seq<u8>) -> Seq<u8>
    decreases s.len(),
{
    if s.len() > 0 && s.last() == 47 {
        spec_strip_slashes(s.drop_last())
    } else {
        s
    }
}

/// The part of the path after its last slash; the whole path when it has
/// none.
pub open spec fn spec_after_last_slash(s: Seq<u8>) -> Seq<u8>
    decreases s.len(),
{
    if s.len() == 0 || s.last() == 47 {
        Seq::empty()
    } else {
        spec_after_last_slash(s.drop_last()).push(s.last())
    }
}

/// The final component the path names, trailing slashes ignored; an empty
/// path, or one of slashes alone, names none.
pub open spec fn spec_path_file_name(path: Seq<u8>) -> Option<Seq<u8>> {
    let name = spec_after_last_slash(spec_strip_slashes(path));
    if name.len() == 0 {
        None
    } else {
        Some(name)
    }
}

/// The position right after the last dot of a name, or zero when it has none.
pub open spec fn spec_after_last_dot(name: Seq<u8>) -> nat
    decreases name.len(),
{
    if name.len() == 0 {
        0
    } else if name.last() == 46 {
        name.len()
    } else {
        spec_after_last_dot(name.drop_last())
    }
}

/// The stem of a file name: what stands before its last dot, unless that dot
/// leads the name, as a hidden file's does.
pub open spec fn spec_stem(name: Seq<u8>) -> Seq<u8> {
    let d = spec_after_last_dot(name) as int;
    if d >= 2 {
        name.take(d - 1)
    } else {
        name
    }
}

/// The extension of a file name: what follows its last dot, unless that dot
/// leads the name.
pub open spec fn spec_ext(name: Seq<u8>) -> Option<Seq<u8>> {
    let d = spec_after_last_dot(name) as int;
    if d >= 2 {
        Some(name.skip(d))
    } else {
        None
    }
}

/// Retreating over trailing slashes computes `spec_strip_slashes`.
proof fn lemma_strip_slashes(s: Seq<u8>, e: int)
    requires
        0 <= e <= s.len(),
        forall|j: int| e <= j < s.len() ==> s[j] == 47,
        e > 0 ==> s[e - 1] != 47,
    ensures
        spec_strip_slashes(s) == s.take(e),
    decreases s.len(),
{
    if s.len() > e {
        lemma_strip_slashes(s.drop_last(), e);
        assert(s.drop_last().take(e) =~= s.take(e));
    } else {
        assert(s.take(e) =~= s);
    }
}

/// A scan back to the last slash computes `spec_after_last_slash`.
proof fn lemma_after_last_slash(s: Seq<u8>, st: int)
    requires
        0 <= st <= s.len(),
        forall|j: int| st <= j < s.len() ==> s[j] != 47,
        st > 0 ==> s[st - 1] == 47,
    ensures
        spec_after_last_slash(s) == s.skip(st),
    decreases s.len(),
{
    if st < s.len() {
        lemma_after_last_slash(s.drop_last(), st);
        assert(s.drop_last().skip(st).push(s.last()) =~= s.skip(st));
    } else {
        assert(s.skip(st) =~= Seq::<u8>::empty());
    }
}

/// A scan back to the last dot computes `spec_after_last_dot`.
proof fn lemma_after_last_dot(name: Seq<u8>, d: int)
    requires
        0 <= d <= name.len(),
        forall|j: int| d <= j < name.len() ==> name[j] != 46,
        d > 0 ==> name[d - 1] == 46,
    ensures
        spec_after_last_dot(name) == d,
    decreases name.len(),
{
    if d < name.len() {
        lemma_after_last_dot(name.drop_last(), d);
    }
}

/// Splits a URL path into the stem and the extension of the file it names,
/// as `spec_path_file_name`, `spec_stem` and `spec_ext` state it: the part
/// after the last slash, trailing slashes ignored, split at its last dot
/// unless that dot leads the name. A path naming no file yields nothing.
pub fn split_path_stem_ext(path: &Vec<u8>) -> (r: Option<(Vec<u8>, Option<Vec<u8>>)>)
    ensures
        r is None <==> spec_path_file_name(path@) is None,
        r matches Some(se) ==> ({
            let name = spec_path_file_name(path@)->0;
            &&& se.0@ == spec_stem(name)
            &&& (se.1 matches Some(e) ==> spec_ext(name) == Some(e@))
            &&& (se.1 is None ==> spec_ext(name) is None)
        }),
{
    let n = path.len();
    let mut e: usize = n;
    while e > 0 && path[e - 1] == 47
        invariant
            0 <= e <= n,
            n == path@.len(),
            forall|j: int| e <= j < n ==> path@[j] == 47,
        decreases e,
    {
        e = e - 1;
    }
    proof {
        lemma_strip_slashes(path@, e as int);
    }
    let ghost stripped = path@.take(e as int);
    let mut st: usize = e;
    while st > 0 && path[st - 1] != 47
        invariant
            0 <= st <= e <= n,
            n == path@.len(),
            forall|j: int| st <= j < e ==> path@[j] != 47,
        decreases st,
    {
        st = st - 1;
    }
    proof {
        assert forall|j: int| st <= j < stripped.len() implies stripped[j] != 47 by {
            assert(stripped[j] == path@[j]);
        }
        if st > 0 {
            assert(stripped[st - 1] == path@[st - 1]);
        }
        lemma_after_last_slash(stripped, st as int);
        assert(stripped.skip(st as int) =~= path@.subrange(st as int, e as int));
    }
    let ghost name = path@.subrange(st as int, e as int);
    if st == e {
        return None;
    }
    let mut d: usize = e;
    while d > st && path[d - 1] != 46
        invariant
            0 <= st <= d <= e <= n,
            n == path@.len(),
            forall|j: int| d <= j < e ==> path@[j] != 46,
        decreases d,
    {
        d = d - 1;
    }
    proof {
        assert forall|j: int| d - st <= j < name.len() implies name[j] != 46 by {
            assert(name[j] == path@[st + j]);
        }
        if d > st {
            assert(name[d - st - 1] == path@[d - 1]);
        }
        lemma_after_last_dot(name, d - st);
    }
    let mut stem: Vec<u8> = Vec::new();
    let mut ext: Option<Vec<u8>> = None;
    let stem_end: usize = if d - st >= 2 {
        d - 1
    } else {
        e
    };
    let mut k: usize = st;
    while k < stem_end
        invariant
            st <= k <= stem_end <= n,
            n == path@.len(),
            stem@ == path@.subrange(st as int, k as int),
        decreases stem_end - k,
    {
        stem.push(path[k]);
        proof {
            assert(path@.subrange(st as int, k + 1) =~= path@.subrange(st as int, k as int).push(
                path@[k as int],
            ));
        }
        k = k + 1;
    }
    if d - st >= 2 {
        let mut ev: Vec<u8> = Vec::new();
        let mut k2: usize = d;
        while k2 < e
            invariant
                d <= k2 <= e <= n,
                n == path@.len(),
                ev@ == path@.subrange(d as int, k2 as int),
            decreases e - k2,
        {
            ev.push(path[k2]);
            proof {
                assert(path@.subrange(d as int, k2 + 1) =~= path@.subrange(d as int, k2 as int).push(
                    path@[k2 as int],
                ));
            }
            k2 = k2 + 1;
        }
        proof {
            assert(name.skip(d - st) =~= path@.subrange(d as int, e as int));
        }
        ext = Some(ev);
    }
    proof {
        if d - st >= 2 {
            assert(name.take((d - st - 1) as int) =~= path@.subrange(st as int, d - 1));
        } else {
            assert(name =~= path@.subrange(st as int, e as int));
        }
    }
    Some((stem, ext))
}

/// The host written as a filename base: every `.` becomes `_`.
pub open spec fn spec_host_base(host: Seq<u8>) -> Seq<u8> {
    host.map(|i: int, b: u8| if b == 46 { 95u8 } else { b })
}

/// `base`, a dot, then `ext`.
pub open spec fn spec_join_ext(base: Seq<u8>, ext: Seq<u8>) -> Seq<u8> {
    base + seq![46u8] + ext
}

/// The derived output file name: the safe stem with the extension appended,
/// or, when the whole stem sanitises away, the host name with its dots
/// replaced by underscores in the stem's place.
pub open spec fn spec_output_name(raw_stem: Seq<u8>, host: Seq<u8>, ext: Seq<u8>) -> Seq<u8> {
    let safe = spec_safe_stem(raw_stem);
    if safe.len() == 0 {
        spec_join_ext(spec_host_base(host), ext)
    } else {
        spec_join_ext(safe, ext)
    }
}

/// Builds the output file name from the raw URL stem, the host and the
/// extension, exactly as `spec_output_name` states it.
pub fn derive_output_name(raw_stem: &Vec<u8>, host: &Vec<u8>, ext: &Vec<u8>) -> (r: Vec<u8>)
    ensures
        r@ == spec_output_name(raw_stem@, host@, ext@),
{
    let safe = sanitize_stem(raw_stem);
    let mut out: Vec<u8> = Vec::new();
    if safe.len() == 0 {
        let mut i: usize = 0;
        while i < host.len()
            invariant
                0 <= i <= host@.len(),
                out@ == spec_host_base(host@.take(i as int)),
            decreases host@.len() - i,
        {
            let b = host[i];
            let kept: u8 = if b == 46 {
                95
            } else {
                b
            };
            out.push(kept);
            proof {
                assert(spec_host_base(host@.take(i + 1)) =~= spec_host_base(
                    host@.take(i as int),
                ).push(kept));
            }
            i = i + 1;
        }
        proof {
            assert(host@.take(host@.len() as int) =~= host@);
        }
    } else {
        let mut j: usize = 0;
        while j < safe.len()
            invariant
                0 <= j <= safe@.len(),
                out@ == safe@.take(j as int),
            decreases safe@.len() - j,
        {
            out.push(safe[j]);
            proof {
                assert(safe@.take(j + 1) =~= safe@.take(j as int).push(safe@[j as int]));
            }
            j = j + 1;
        }
        proof {
            assert(safe@.take(safe@.len() as int) =~= safe@);
        }
    }
    out.push(46);
    let mut k: usize = 0;
    let ghost base = out@;
    while k < ext.len()
        invariant
            0 <= k <= ext@.len(),
            out@ == base + ext@.take(k as int),
        decreases ext@.len() - k,
    {
        out.push(ext[k]);
        proof {
            assert(base + ext@.take(k + 1) =~= (base + ext@.take(k as int)).push(
                ext@[k as int],
            ));
        }
        k = k + 1;
    }
    proof {
        assert(ext@.take(ext@.len() as int) =~= ext@);
        assert(out@ =~= spec_output_name(raw_stem@, host@, ext@));
    }
    out
}

} // verus!
