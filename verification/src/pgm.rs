//! Importer for the plain-text grayscale raster format.
//!
//! The input is raw bytes holding ASCII text: a `P2` format marker, the
//! width, the height and the maximum intensity, then exactly `w * h`
//! whitespace-separated non-negative integer samples in row-major order
//! (the first header dimension is the grid's outer axis).  `#` starts a
//! comment that runs to the end of its line and counts as whitespace.
//! Every sample `v` becomes the height `v * scaling`, where `scaling` is a
//! fixed-point factor.  Any structural deviation is a decode failure, and
//! no terrain is built: a byte outside ASCII anywhere in the input — in
//! particular any invalid UTF-8, comments included — is an encoding
//! failure, and a bad marker, bad header numbers, a non-numeric token, a
//! sample over the declared maximum, or a token count that misses or
//! exceeds `w * h` each report their own failure.

use crate::fixed::{int_scale, sat64};
use crate::terrain::{velocity_zeroed, Terrain};
use vstd::prelude::*;

verus! {

/// Why a decode failed.
#[derive(Clone, Copy, PartialEq, Eq, Structural, Debug)]
pub enum PgmError {
    /// The input does not start with the `P2` format marker.
    BadMagic,
    /// A width, height or maximum-intensity value is missing, zero or too
    /// large.
    BadHeader,
    /// A token that should be a number is not a plain decimal numeral.
    NonNumeric,
    /// A sample exceeds the declared maximum intensity.
    SampleOutOfRange,
    /// Fewer samples than the declared `w * h`.
    MissingSamples,
    /// More samples than the declared `w * h`.
    TrailingData,
    /// A byte outside ASCII, such as invalid UTF-8, anywhere in the input.
    BadEncoding,
}

/// The diagnostic text of each failure.
pub open spec fn spec_message(e: PgmError) -> Seq<char> {
    match e {
        PgmError::BadMagic => "missing or unknown raster format marker"@,
        PgmError::BadHeader => "missing, zero or oversized header value"@,
        PgmError::NonNumeric => "token is not a decimal numeral"@,
        PgmError::SampleOutOfRange => "sample exceeds the declared maximum"@,
        PgmError::MissingSamples => "fewer samples than width * height"@,
        PgmError::TrailingData => "more samples than width * height"@,
        PgmError::BadEncoding => "input is not ASCII text"@,
    }
}

impl PgmError {
    /// A short diagnostic text for the failure.
    pub fn message(&self) -> (r: &'static str)
        ensures
            r@ == spec_message(*self),
            r@.len() > 0,
    {
        proof {
            reveal_strlit("missing or unknown raster format marker");
            reveal_strlit("missing, zero or oversized header value");
            reveal_strlit("token is not a decimal numeral");
            reveal_strlit("sample exceeds the declared maximum");
            reveal_strlit("fewer samples than width * height");
            reveal_strlit("more samples than width * height");
            reveal_strlit("input is not ASCII text");
        }
        match self {
            PgmError::BadMagic => "missing or unknown raster format marker",
            PgmError::BadHeader => "missing, zero or oversized header value",
            PgmError::NonNumeric => "token is not a decimal numeral",
            PgmError::SampleOutOfRange => "sample exceeds the declared maximum",
            PgmError::MissingSamples => "fewer samples than width * height",
            PgmError::TrailingData => "more samples than width * height",
            PgmError::BadEncoding => "input is not ASCII text",
        }
    }
}

/// Every byte of the input is ASCII; invalid UTF-8 always breaks this, and
/// the format itself never needs a byte outside ASCII.
pub open spec fn ascii_only(s: Seq<u8>) -> bool {
    forall|i: int| 0 <= i < s.len() ==> #[trigger] s[i] < 128
}

/// Bytes that separate tokens.
pub open spec fn is_space(b: u8) -> bool {
    b == 32 || b == 9 || b == 10 || b == 13
}

/// The comment marker `#`.
pub open spec fn is_comment(b: u8) -> bool {
    b == 35
}

/// The token stream of `s` from position `i` on, given the token collected
/// so far and whether a comment is open: tokens are maximal runs of bytes
/// that are neither whitespace nor `#`; a comment runs to the end of its
/// line.
pub open spec fn lex_from(s: Seq<u8>, i: int, cur: Seq<u8>, in_comment: bool) -> Seq<Seq<u8>>
    decreases s.len() - i
        when 0 <= i <= s.len()
{
    if i >= s.len() {
        if cur.len() > 0 {
            seq![cur]
        } else {
            Seq::empty()
        }
    } else if in_comment {
        lex_from(s, i + 1, cur, s[i] != 10)
    } else if is_comment(s[i]) || is_space(s[i]) {
        if cur.len() > 0 {
            seq![cur] + lex_from(s, i + 1, Seq::empty(), is_comment(s[i]))
        } else {
            lex_from(s, i + 1, cur, is_comment(s[i]))
        }
    } else {
        lex_from(s, i + 1, cur.push(s[i]), false)
    }
}

/// The token stream of `s`.
pub open spec fn lex(s: Seq<u8>) -> Seq<Seq<u8>> {
    lex_from(s, 0, Seq::empty(), false)
}

/// A decimal digit.
pub open spec fn is_digit(b: u8) -> bool {
    48 <= b <= 57
}

/// A nonempty all-digit token.
pub open spec fn is_digits(t: Seq<u8>) -> bool {
    t.len() > 0 && forall|i: int| 0 <= i < t.len() ==> is_digit(#[trigger] t[i])
}

/// The number a digit token denotes.
pub open spec fn num_v(t: Seq<u8>) -> int
    decreases t.len(),
{
    if t.len() == 0 {
        0
    } else {
        num_v(t.drop_last()) * 10 + (t.last() - 48)
    }
}

/// The `P2` format marker.
pub open spec fn magic_token() -> Seq<u8> {
    seq![80u8, 50u8]
}

/// The first failure among the samples `toks[4 + k ..]`, scanned in order.
pub open spec fn sample_err(toks: Seq<Seq<u8>>, k: int, total: int, maxval: int) -> Option<
    PgmError,
>
    decreases total - k
        when k <= total && 4 + total <= toks.len()
{
    if k >= total {
        None
    } else if !is_digits(toks[4 + k]) {
        Some(PgmError::NonNumeric)
    } else if num_v(toks[4 + k]) > maxval {
        Some(PgmError::SampleOutOfRange)
    } else {
        sample_err(toks, k + 1, total, maxval)
    }
}

/// What a token stream decodes to: the grid shape and the scaled height
/// buffer, or the first failure in reading order.
pub open spec fn parse_tokens(toks: Seq<Seq<u8>>, scaling: int) -> Result<
    (int, int, Seq<i64>),
    PgmError,
> {
    if toks.len() == 0 || toks[0] != magic_token() {
        Err(PgmError::BadMagic)
    } else if toks.len() < 4 {
        Err(PgmError::BadHeader)
    } else if !is_digits(toks[1]) {
        Err(PgmError::NonNumeric)
    } else if num_v(toks[1]) == 0 || num_v(toks[1]) > 0xFFFF_FFFF {
        Err(PgmError::BadHeader)
    } else if !is_digits(toks[2]) {
        Err(PgmError::NonNumeric)
    } else if num_v(toks[2]) == 0 || num_v(toks[2]) > 0xFFFF_FFFF {
        Err(PgmError::BadHeader)
    } else if !is_digits(toks[3]) {
        Err(PgmError::NonNumeric)
    } else if num_v(toks[3]) == 0 || num_v(toks[3]) > 65535 {
        Err(PgmError::BadHeader)
    } else {
        let w = num_v(toks[1]);
        let h = num_v(toks[2]);
        let maxval = num_v(toks[3]);
        if toks.len() - 4 < w * h {
            Err(PgmError::MissingSamples)
        } else if toks.len() - 4 > w * h {
            Err(PgmError::TrailingData)
        } else {
            match sample_err(toks, 0, w * h, maxval) {
                Some(e) => Err(e),
                None => Ok(
                    (
                        w,
                        h,
                        Seq::new((w * h) as nat, |k: int| sat64(num_v(toks[4 + k]) * scaling) as i64),
                    ),
                ),
            }
        }
    }
}

/// What a byte string decodes to: the encoding is checked first, as a
/// whole, so a byte outside ASCII fails even inside a comment.
pub open spec fn spec_decode(s: Seq<u8>, scaling: int) -> Result<(int, int, Seq<i64>), PgmError> {
    if !ascii_only(s) {
        Err(PgmError::BadEncoding)
    } else {
        parse_tokens(lex(s), scaling)
    }
}

/// Split the input into its tokens.
fn lex_exec(data: &Vec<u8>) -> (toks: Vec<Vec<u8>>)
    ensures
        toks@.map_values(|t: Vec<u8>| t@) == lex(data@),
{
    let n = data.len();
    let mut toks: Vec<Vec<u8>> = Vec::new();
    let mut cur: Vec<u8> = Vec::new();
    let mut in_comment = false;
    let mut i: usize = 0;
    while i < n
        invariant
            i <= n,
            n == data@.len(),
            lex(data@) == toks@.map_values(|t: Vec<u8>| t@) + lex_from(
                data@,
                i as int,
                cur@,
                in_comment,
            ),
            in_comment ==> cur@.len() == 0,
        decreases n - i,
    {
        let b = data[i];
        let ghost prev_toks = toks@;
        let ghost prev_cur = cur@;
        let ghost prev_comment = in_comment;
        if in_comment {
            in_comment = b != 10;
        } else if b == 35 || b == 32 || b == 9 || b == 10 || b == 13 {
            if cur.len() > 0 {
                toks.push(cur);
                cur = Vec::new();
            }
            in_comment = b == 35;
        } else {
            cur.push(b);
        }
        proof {
            let s = data@;
            let f = |t: Vec<u8>| t@;
            if prev_comment {
                assert(lex_from(s, i as int, prev_cur, true) == lex_from(
                    s,
                    i + 1,
                    prev_cur,
                    s[i as int] != 10,
                ));
            } else if is_comment(s[i as int]) || is_space(s[i as int]) {
                if prev_cur.len() > 0 {
                    assert(lex_from(s, i as int, prev_cur, false) == seq![prev_cur] + lex_from(
                        s,
                        i + 1,
                        Seq::empty(),
                        is_comment(s[i as int]),
                    ));
                    assert(toks@.map_values(f) =~= prev_toks.map_values(f).push(prev_cur));
                    assert(toks@.map_values(f) + lex_from(s, i + 1, cur@, in_comment)
                        =~= prev_toks.map_values(f) + (seq![prev_cur] + lex_from(
                        s,
                        i + 1,
                        cur@,
                        in_comment,
                    )));
                } else {
                    assert(lex_from(s, i as int, prev_cur, false) == lex_from(
                        s,
                        i + 1,
                        prev_cur,
                        is_comment(s[i as int]),
                    ));
                }
            } else {
                assert(cur@ == prev_cur.push(s[i as int]));
                assert(lex_from(s, i as int, prev_cur, false) == lex_from(
                    s,
                    i + 1,
                    prev_cur.push(s[i as int]),
                    false,
                ));
            }
        }
        i = i + 1;
    }
    if cur.len() > 0 {
        toks.push(cur);
    }
    proof {
        assert(toks@.map_values(|t: Vec<u8>| t@) =~= lex(data@));
    }
    toks
}

/// A string of digits denotes a non-negative number.
proof fn lemma_num_v_nonneg(t: Seq<u8>)
    requires
        forall|i: int| 0 <= i < t.len() ==> is_digit(#[trigger] t[i]),
    ensures
        num_v(t) >= 0,
    decreases t.len(),
{
    if t.len() > 0 {
        lemma_num_v_nonneg(t.drop_last());
        assert(num_v(t.drop_last()) * 10 >= 0) by (nonlinear_arith)
            requires
                num_v(t.drop_last()) >= 0,
        ;
    }
}

/// A prefix of a digit string denotes at most the whole string's number.
proof fn lemma_num_v_prefix_le(t: Seq<u8>, j: int)
    requires
        forall|i: int| 0 <= i < t.len() ==> is_digit(#[trigger] t[i]),
        0 <= j <= t.len(),
    ensures
        num_v(t.take(j)) <= num_v(t),
    decreases t.len() - j,
{
    if j == t.len() {
        assert(t.take(j) =~= t);
    } else {
        lemma_num_v_prefix_le(t, j + 1);
        assert(t.take(j + 1).drop_last() =~= t.take(j));
        assert(t.take(j + 1).last() == t[j]);
        lemma_num_v_nonneg(t.take(j));
        assert(num_v(t.take(j)) * 10 + (t[j] - 48) >= num_v(t.take(j))) by (nonlinear_arith)
            requires
                num_v(t.take(j)) >= 0,
                t[j] >= 48,
        ;
    }
}

/// Whether the token is a nonempty plain decimal numeral.
fn check_digits(t: &Vec<u8>) -> (r: bool)
    ensures
        r == is_digits(t@),
{
    if t.len() == 0 {
        return false;
    }
    let mut j: usize = 0;
    while j < t.len()
        invariant
            j <= t@.len(),
            forall|i: int| 0 <= i < j ==> is_digit(#[trigger] t@[i]),
        decreases t@.len() - j,
    {
        let b = t[j];
        if b < 48 || b > 57 {
            return false;
        }
        j = j + 1;
    }
    true
}

/// The token's number, when it stays within `limit`; absent when it
/// exceeds the limit.
fn parse_num(t: &Vec<u8>, limit: u64) -> (r: Option<u64>)
    requires
        is_digits(t@),
    ensures
        match r {
            Some(v) => v <= limit && v as int == num_v(t@),
            None => num_v(t@) > limit as int,
        },
{
    let mut acc: u64 = 0;
    let mut j: usize = 0;
    while j < t.len()
        invariant
            is_digits(t@),
            j <= t@.len(),
            acc as int == num_v(t@.take(j as int)),
            acc <= limit,
        decreases t@.len() - j,
    {
        let d = t[j];
        let nx: u128 = (acc as u128) * 10 + ((d - 48) as u128);
        proof {
            assert(t@.take(j + 1).drop_last() =~= t@.take(j as int));
            assert(t@.take(j + 1).last() == t@[j as int]);
        }
        if nx > limit as u128 {
            proof {
                lemma_num_v_prefix_le(t@, j + 1);
            }
            return None;
        }
        acc = nx as u64;
        j = j + 1;
    }
    proof {
        assert(t@.take(t@.len() as int) =~= t@);
    }
    Some(acc)
}

/// Decode a raster byte string into a terrain, with velocity zeroed, or
/// report the first failure in reading order.
#[verifier::loop_isolation(false)]
pub fn decode_pgm(data: &Vec<u8>, scaling: i64) -> (r: Result<Terrain, PgmError>)
    ensures
        match r {
            Ok(t) => spec_decode(data@, scaling as int) matches Ok(v) && t.wf() && t@.heights.w
                == v.0 && t@.heights.h == v.1 && t@.heights.cells == v.2 && velocity_zeroed(t@),
            Err(e) => spec_decode(data@, scaling as int) == Err::<(int, int, Seq<i64>), PgmError>(
                e,
            ),
        },
{
    let mut p: usize = 0;
    while p < data.len()
        invariant
            p <= data@.len(),
            forall|i: int| 0 <= i < p ==> #[trigger] data@[i] < 128,
        decreases data@.len() - p,
    {
        if data[p] >= 128 {
            return Err(PgmError::BadEncoding);
        }
        p = p + 1;
    }
    let toks = lex_exec(data);
    let ghost tk = toks@.map_values(|t: Vec<u8>| t@);
    if toks.len() == 0 {
        return Err(PgmError::BadMagic);
    }
    proof {
        assert(tk[0] == toks@[0]@);
    }
    let t0 = &toks[0];
    if !(t0.len() == 2 && t0[0] == 80 && t0[1] == 50) {
        proof {
            assert(tk[0] != magic_token()) by {
                if tk[0] == magic_token() {
                    assert(t0@.len() == 2);
                    assert(t0@[0] == magic_token()[0]);
                    assert(t0@[1] == magic_token()[1]);
                }
            }
        }
        return Err(PgmError::BadMagic);
    }
    proof {
        assert(tk[0] =~= magic_token());
    }
    if toks.len() < 4 {
        return Err(PgmError::BadHeader);
    }
    proof {
        assert(tk[1] == toks@[1]@);
        assert(tk[2] == toks@[2]@);
        assert(tk[3] == toks@[3]@);
    }
    if !check_digits(&toks[1]) {
        return Err(PgmError::NonNumeric);
    }
    let w64 = match parse_num(&toks[1], 0xFFFF_FFFFu64) {
        Some(v) => v,
        None => {
            return Err(PgmError::BadHeader);
        },
    };
    if w64 == 0 {
        return Err(PgmError::BadHeader);
    }
    if !check_digits(&toks[2]) {
        return Err(PgmError::NonNumeric);
    }
    let h64 = match parse_num(&toks[2], 0xFFFF_FFFFu64) {
        Some(v) => v,
        None => {
            return Err(PgmError::BadHeader);
        },
    };
    if h64 == 0 {
        return Err(PgmError::BadHeader);
    }
    if !check_digits(&toks[3]) {
        return Err(PgmError::NonNumeric);
    }
    let maxval = match parse_num(&toks[3], 65535u64) {
        Some(v) => v,
        None => {
            return Err(PgmError::BadHeader);
        },
    };
    if maxval == 0 {
        return Err(PgmError::BadHeader);
    }
    proof {
        assert(w64 as int * h64 as int <= u64::MAX as int && w64 as int * h64 as int >= 1)
            by (nonlinear_arith)
            requires
                1 <= w64 as int <= 0xFFFF_FFFF,
                1 <= h64 as int <= 0xFFFF_FFFF,
        ;
    }
    let total64: u64 = w64 * h64;
    let avail: usize = toks.len() - 4;
    if (avail as u64) < total64 {
        return Err(PgmError::MissingSamples);
    }
    if (avail as u64) > total64 {
        return Err(PgmError::TrailingData);
    }
    let total: usize = avail;
    let ghost maxi = num_v(tk[3]);
    let mut vals: Vec<i64> = Vec::new();
    let mut k: usize = 0;
    while k < total
        invariant
            k <= total,
            toks@.len() == 4 + total,
            tk == toks@.map_values(|t: Vec<u8>| t@),
            tk.len() == toks@.len(),
            maxi == maxval as int,
            sample_err(tk, 0, total as int, maxi) == sample_err(tk, k as int, total as int, maxi),
            vals@.len() == k,
            forall|j: int|
                0 <= j < k ==> vals@[j] as int == sat64(num_v(tk[4 + j]) * scaling as int),
        decreases total - k,
    {
        proof {
            assert(tk[4 + k as int] == toks@[4 + k as int]@);
        }
        let t = &toks[4 + k];
        if !check_digits(t) {
            proof {
                assert(sample_err(tk, k as int, total as int, maxi) == Some(PgmError::NonNumeric));
            }
            return Err(PgmError::NonNumeric);
        }
        match parse_num(t, maxval) {
            None => {
                proof {
                    assert(sample_err(tk, k as int, total as int, maxi) == Some(
                        PgmError::SampleOutOfRange,
                    ));
                }
                return Err(PgmError::SampleOutOfRange);
            },
            Some(v) => {
                vals.push(int_scale(v, scaling));
                proof {
                    assert(sample_err(tk, k as int, total as int, maxi) == sample_err(
                        tk,
                        k as int + 1,
                        total as int,
                        maxi,
                    ));
                }
            },
        }
        k = k + 1;
    }
    let wu: usize = w64 as usize;
    let hu: usize = h64 as usize;
    proof {
        assert(wu as int * hu as int == total as int);
        assert(Terrain::dims_ok((wu, hu)));
    }
    let t = Terrain::from_tiles(vals, (wu, hu));
    proof {
        let spec_vals = Seq::new(
            (num_v(tk[1]) * num_v(tk[2])) as nat,
            |j: int| sat64(num_v(tk[4 + j]) * scaling as int) as i64,
        );
        assert(vals@ =~= spec_vals);
    }
    Ok(t)
}

/// A byte that belongs to a token: neither whitespace nor the comment
/// marker.
pub open spec fn is_token_byte(b: u8) -> bool {
    !is_space(b) && !is_comment(b)
}

/// The decimal numeral of `n`.
pub open spec fn digits_of(n: nat) -> Seq<u8>
    decreases n,
{
    if n < 10 {
        seq![(48 + n) as u8]
    } else {
        digits_of(n / 10).push((48 + n % 10) as u8)
    }
}

/// `digits_of(n)` is a numeral token denoting `n`.
pub proof fn lemma_digits_of(n: nat)
    ensures
        is_digits(digits_of(n)),
        num_v(digits_of(n)) == n,
        forall|i: int|
            0 <= i < digits_of(n).len() ==> is_token_byte(#[trigger] digits_of(n)[i]),
    decreases n,
{
    if n < 10 {
        assert(digits_of(n).drop_last() =~= Seq::<u8>::empty());
        assert(num_v(Seq::<u8>::empty()) == 0);
        assert(digits_of(n).last() == (48 + n) as u8);
        assert(num_v(digits_of(n)) == 0 * 10 + ((48 + n) as u8 - 48));
    } else {
        lemma_digits_of(n / 10);
        assert(digits_of(n).drop_last() =~= digits_of(n / 10));
        assert(digits_of(n).last() == (48 + n % 10) as u8);
        vstd::arithmetic::div_mod::lemma_fundamental_div_mod(n as int, 10);
        assert(num_v(digits_of(n)) == num_v(digits_of(n / 10)) * 10 + ((48 + n % 10) as u8 - 48));
    }
}

/// Skipping a prefix shifts the lexer's position.
proof fn lemma_lex_from_skip(s: Seq<u8>, d: int, i: int, cur: Seq<u8>, c: bool)
    requires
        0 <= d <= i <= s.len(),
    ensures
        lex_from(s, i, cur, c) == lex_from(s.skip(d), i - d, cur, c),
    decreases s.len() - i,
{
    assert(s.skip(d).len() == s.len() - d);
    if i < s.len() {
        assert(s.skip(d)[i - d] == s[i]);
        if c {
            lemma_lex_from_skip(s, d, i + 1, cur, s[i] != 10);
        } else if is_comment(s[i]) || is_space(s[i]) {
            if cur.len() > 0 {
                lemma_lex_from_skip(s, d, i + 1, Seq::empty(), is_comment(s[i]));
            } else {
                lemma_lex_from_skip(s, d, i + 1, cur, is_comment(s[i]));
            }
        } else {
            lemma_lex_from_skip(s, d, i + 1, cur.push(s[i]), false);
        }
    }
}

/// A run of token bytes closed by a newline lexes to one token.
proof fn lemma_lex_token_run(s: Seq<u8>, i: int, j: int, cur: Seq<u8>)
    requires
        0 <= i <= j < s.len(),
        forall|k: int| i <= k < j ==> is_token_byte(#[trigger] s[k]),
        s[j] == 10,
        cur.len() + (j - i) > 0,
    ensures
        lex_from(s, i, cur, false) == seq![cur + s.subrange(i, j)] + lex_from(
            s,
            j + 1,
            Seq::empty(),
            false,
        ),
    decreases j - i,
{
    if i == j {
        assert(cur + s.subrange(i, j) =~= cur);
    } else {
        lemma_lex_token_run(s, i + 1, j, cur.push(s[i]));
        assert(cur.push(s[i]) + s.subrange(i + 1, j) =~= cur + s.subrange(i, j));
    }
}

/// The byte text of a token list: each token, then one newline.
pub open spec fn render_tokens(toks: Seq<Seq<u8>>) -> Seq<u8>
    decreases toks.len(),
{
    if toks.len() == 0 {
        Seq::empty()
    } else {
        toks[0] + seq![10u8] + render_tokens(toks.skip(1))
    }
}

/// Rendering appends token by token.
proof fn lemma_render_push(toks: Seq<Seq<u8>>, t: Seq<u8>)
    ensures
        render_tokens(toks.push(t)) == render_tokens(toks) + t + seq![10u8],
    decreases toks.len(),
{
    if toks.len() == 0 {
        assert(toks.push(t)[0] == t);
        assert(toks.push(t).skip(1) =~= Seq::<Seq<u8>>::empty());
        assert(render_tokens(Seq::<Seq<u8>>::empty()) =~= Seq::<u8>::empty());
        assert(render_tokens(toks) =~= Seq::<u8>::empty());
        assert(render_tokens(toks.push(t)) == t + seq![10u8] + render_tokens(
            Seq::<Seq<u8>>::empty(),
        ));
        assert(render_tokens(toks.push(t)) =~= render_tokens(toks) + t + seq![10u8]);
    } else {
        assert(toks.push(t)[0] == toks[0]);
        assert(toks.push(t).skip(1) =~= toks.skip(1).push(t));
        assert(render_tokens(toks.push(t)) == toks[0] + seq![10u8] + render_tokens(
            toks.skip(1).push(t),
        ));
        lemma_render_push(toks.skip(1), t);
        assert(render_tokens(toks) == toks[0] + seq![10u8] + render_tokens(toks.skip(1)));
        assert(render_tokens(toks.push(t)) =~= render_tokens(toks) + t + seq![10u8]);
    }
}

/// Every token is nonempty and made of token bytes.
pub open spec fn tokens_clean(toks: Seq<Seq<u8>>) -> bool {
    &&& forall|i: int| 0 <= i < toks.len() ==> (#[trigger] toks[i]).len() > 0
    &&& forall|i: int, k: int|
        0 <= i < toks.len() && 0 <= k < toks[i].len() ==> is_token_byte(#[trigger] toks[i][k])
}

/// Lexing a rendered clean token list gives the list back.
pub proof fn lemma_lex_render(toks: Seq<Seq<u8>>)
    requires
        tokens_clean(toks),
    ensures
        lex(render_tokens(toks)) == toks,
    decreases toks.len(),
{
    if toks.len() == 0 {
        assert(lex(render_tokens(toks)) =~= toks);
    } else {
        let t0 = toks[0];
        let rest = toks.skip(1);
        let s = render_tokens(toks);
        let n0 = t0.len() as int;
        assert(s =~= t0 + seq![10u8] + render_tokens(rest));
        assert forall|k: int| 0 <= k < n0 implies is_token_byte(#[trigger] s[k]) by {
            assert(s[k] == t0[k]);
        }
        assert(s[n0] == 10);
        lemma_lex_token_run(s, 0, n0, Seq::empty());
        assert(Seq::<u8>::empty() + s.subrange(0, n0) =~= t0);
        lemma_lex_from_skip(s, n0 + 1, n0 + 1, Seq::empty(), false);
        assert(s.skip(n0 + 1) =~= render_tokens(rest));
        assert forall|i: int| 0 <= i < rest.len() implies (#[trigger] rest[i]).len() > 0 by {
            assert(rest[i] == toks[i + 1]);
        }
        assert forall|i: int, k: int| 0 <= i < rest.len() && 0 <= k < rest[i].len() implies
            is_token_byte(#[trigger] rest[i][k]) by {
            assert(rest[i] == toks[i + 1]);
        }
        lemma_lex_render(rest);
        assert(seq![t0] + rest =~= toks);
    }
}

/// Rendering tokens of ASCII bytes yields ASCII text.
proof fn lemma_render_ascii(toks: Seq<Seq<u8>>)
    requires
        forall|i: int, k: int|
            0 <= i < toks.len() && 0 <= k < toks[i].len() ==> #[trigger] toks[i][k] < 128,
    ensures
        ascii_only(render_tokens(toks)),
    decreases toks.len(),
{
    if toks.len() > 0 {
        let t0 = toks[0];
        let rest = toks.skip(1);
        assert forall|i: int, k: int| 0 <= i < rest.len() && 0 <= k < rest[i].len() implies #[trigger]
            rest[i][k] < 128 by {
            assert(rest[i] == toks[i + 1]);
        }
        lemma_render_ascii(rest);
        let s = render_tokens(toks);
        assert forall|j: int| 0 <= j < s.len() implies #[trigger] s[j] < 128 by {
            if j < t0.len() {
                assert(s[j] == t0[j]);
            } else if j == t0.len() {
                assert(s[j] == 10);
            } else {
                assert(s[j] == render_tokens(rest)[j - t0.len() - 1]);
            }
        }
    }
}

/// Samples that are all in-range numerals raise no sample error.
proof fn lemma_sample_err_none(toks: Seq<Seq<u8>>, k: int, total: int, maxval: int)
    requires
        0 <= k <= total,
        4 + total <= toks.len(),
        forall|j: int|
            k <= j < total ==> is_digits(#[trigger] toks[4 + j]) && num_v(toks[4 + j]) <= maxval,
    ensures
        sample_err(toks, k, total, maxval) == None::<PgmError>,
    decreases total - k,
{
    if k < total {
        lemma_sample_err_none(toks, k + 1, total, maxval);
    }
}

/// Append the decimal numeral of `n`.
fn push_number(out: &mut Vec<u8>, n: u64)
    ensures
        final(out)@ == old(out)@ + digits_of(n as nat),
    decreases n,
{
    if n < 10 {
        out.push(48 + n as u8);
        proof {
            assert(final(out)@ =~= old(out)@ + digits_of(n as nat));
        }
    } else {
        proof {
            vstd::arithmetic::div_mod::lemma_div_decreases(n as int, 10);
        }
        push_number(out, n / 10);
        out.push(48 + (n % 10) as u8);
        proof {
            assert(final(out)@ =~= old(out)@ + digits_of(n as nat));
        }
    }
}

/// Encode a grid of samples into the raster text format.  Decoding the
/// result reproduces the shape and every sample exactly, at any scaling:
/// the importer and this encoder are inverse on well-formed grids.
pub fn encode_pgm(width: u32, height: u32, maxval: u16, samples: &Vec<u16>) -> (r: Vec<u8>)
    requires
        width >= 1,
        height >= 1,
        maxval >= 1,
        samples@.len() == width * height,
        forall|i: int| 0 <= i < samples@.len() ==> #[trigger] samples@[i] <= maxval,
    ensures
        forall|scaling: int|
            #[trigger] spec_decode(r@, scaling) == Ok::<(int, int, Seq<i64>), PgmError>(
                (
                    width as int,
                    height as int,
                    Seq::new(
                        (width * height) as nat,
                        |k: int| sat64(samples@[k] * scaling) as i64,
                    ),
                ),
            ),
{
    let ghost header = seq![
        magic_token(),
        digits_of(width as nat),
        digits_of(height as nat),
        digits_of(maxval as nat),
    ];
    let mut out: Vec<u8> = Vec::new();
    out.push(80);
    out.push(50);
    out.push(10);
    push_number(&mut out, width as u64);
    out.push(10);
    push_number(&mut out, height as u64);
    out.push(10);
    push_number(&mut out, maxval as u64);
    out.push(10);
    proof {
        lemma_render_push(seq![magic_token()], digits_of(width as nat));
        lemma_render_push(header.take(2), digits_of(height as nat));
        lemma_render_push(header.take(3), digits_of(maxval as nat));
        assert(header.take(2) =~= seq![magic_token()].push(digits_of(width as nat)));
        assert(header.take(3) =~= header.take(2).push(digits_of(height as nat)));
        assert(header =~= header.take(3).push(digits_of(maxval as nat)));
        assert(seq![magic_token()].skip(1) =~= Seq::<Seq<u8>>::empty());
        assert(render_tokens(Seq::<Seq<u8>>::empty()) =~= Seq::<u8>::empty());
        assert(render_tokens(seq![magic_token()]) == magic_token() + seq![10u8] + render_tokens(
            Seq::<Seq<u8>>::empty(),
        ));
        assert(render_tokens(seq![magic_token()]) =~= seq![80u8, 50u8, 10u8]);
        assert(out@ =~= render_tokens(header));
    }
    let n = samples.len();
    let mut k: usize = 0;
    while k < n
        invariant
            k <= n,
            n == samples@.len(),
            out@ == render_tokens(
                header + samples@.take(k as int).map_values(|v: u16| digits_of(v as nat)),
            ),
        decreases n - k,
    {
        let ghost toks_before = header + samples@.take(k as int).map_values(
            |v: u16| digits_of(v as nat),
        );
        push_number(&mut out, samples[k] as u64);
        out.push(10);
        proof {
            lemma_render_push(toks_before, digits_of(samples@[k as int] as nat));
            assert(header + samples@.take(k as int + 1).map_values(|v: u16| digits_of(v as nat))
                =~= toks_before.push(digits_of(samples@[k as int] as nat)));
            assert(out@ =~= render_tokens(toks_before.push(digits_of(samples@[k as int] as nat))));
        }
        k = k + 1;
    }
    proof {
        let toks = header + samples@.map_values(|v: u16| digits_of(v as nat));
        assert(samples@.take(n as int) =~= samples@);
        assert(out@ == render_tokens(toks));
        assert forall|i: int| 0 <= i < toks.len() implies (#[trigger] toks[i]).len() > 0 by {
            if i >= 4 {
                lemma_digits_of(samples@[i - 4] as nat);
            } else if i >= 1 {
                lemma_digits_of(width as nat);
                lemma_digits_of(height as nat);
                lemma_digits_of(maxval as nat);
            }
        }
        assert forall|i: int, b: int| 0 <= i < toks.len() && 0 <= b < toks[i].len() implies
            is_token_byte(#[trigger] toks[i][b]) by {
            if i == 0 {
                assert(toks[0] =~= magic_token());
            } else if i < 4 {
                lemma_digits_of(width as nat);
                lemma_digits_of(height as nat);
                lemma_digits_of(maxval as nat);
            } else {
                lemma_digits_of(samples@[i - 4] as nat);
            }
        }
        assert forall|i: int, b: int| 0 <= i < toks.len() && 0 <= b < toks[i].len() implies #[trigger]
            toks[i][b] < 128 by {
            if i == 0 {
                assert(toks[0] =~= magic_token());
            } else if i < 4 {
                lemma_digits_of(width as nat);
                lemma_digits_of(height as nat);
                lemma_digits_of(maxval as nat);
            } else {
                lemma_digits_of(samples@[i - 4] as nat);
            }
        }
        lemma_render_ascii(toks);
        lemma_lex_render(toks);
        lemma_digits_of(width as nat);
        lemma_digits_of(height as nat);
        lemma_digits_of(maxval as nat);
        assert(toks[0] =~= magic_token());
        assert(toks[1] == digits_of(width as nat));
        assert(toks[2] == digits_of(height as nat));
        assert(toks[3] == digits_of(maxval as nat));
        assert(toks.len() - 4 == width as int * height as int);
        assert forall|j: int| 0 <= j < width as int * height as int implies is_digits(
            #[trigger] toks[4 + j],
        ) && num_v(toks[4 + j]) <= maxval as int by {
            assert(toks[4 + j] == digits_of(samples@[j] as nat));
            lemma_digits_of(samples@[j] as nat);
        }
        lemma_sample_err_none(toks, 0, width as int * height as int, maxval as int);
        assert forall|scaling: int| #[trigger] spec_decode(out@, scaling) == Ok::<
            (int, int, Seq<i64>),
            PgmError,
        >(
            (
                width as int,
                height as int,
                Seq::new((width * height) as nat, |kk: int| sat64(samples@[kk] * scaling) as i64),
            ),
        ) by {
            let got = parse_tokens(toks, scaling);
            assert(got is Ok);
            let v = got->Ok_0;
            assert(v.2 =~= Seq::new(
                (width * height) as nat,
                |kk: int| sat64(samples@[kk] * scaling) as i64,
            )) by {
                assert forall|kk: int| 0 <= kk < width as int * height as int implies v.2[kk]
                    == sat64(samples@[kk] * scaling) as i64 by {
                    assert(toks[4 + kk] == digits_of(samples@[kk] as nat));
                    lemma_digits_of(samples@[kk] as nat);
                }
            }
        }
    }
    out
}

impl Terrain {
    /// Decode a raster byte string into a terrain, or nothing on any
    /// decode failure.
    pub fn from_pgm(data: Vec<u8>, scaling: i64) -> (r: Option<Terrain>)
        ensures
            match r {
                Some(t) => spec_decode(data@, scaling as int) matches Ok(v) && t.wf()
                    && t@.heights.w == v.0 && t@.heights.h == v.1 && t@.heights.cells == v.2
                    && velocity_zeroed(t@),
                None => spec_decode(data@, scaling as int) is Err,
            },
    {
        match decode_pgm(&data, scaling) {
            Ok(t) => Some(t),
            Err(_) => None,
        }
    }
}

} // verus!
