//! Byte-level text utilities shared by the two descriptor parsers: line
//! splitting, whitespace tokenization, and the numeric token grammars.

use vstd::prelude::*;
use vstd::slice::slice_to_vec;

verus! {

/// Whitespace inside a line: space, tab, carriage return, vertical tab,
/// form feed. Line feeds separate lines and never occur inside one.
pub open spec fn is_ws(b: u8) -> bool {
    b == 32 || b == 9 || b == 13 || b == 11 || b == 12
}

/// ASCII decimal digit.
pub open spec fn is_digit(b: u8) -> bool {
    48 <= b <= 57
}

/// Index of the first occurrence of `w` at or after `i`, or the length.
pub open spec fn spec_find_byte(s: Seq<u8>, w: u8, i: int) -> int
    decreases s.len() - i,
{
    if i < 0 || i >= s.len() {
        s.len() as int
    } else if s[i] == w {
        i
    } else {
        spec_find_byte(s, w, i + 1)
    }
}

pub proof fn lemma_find_byte_bounds(s: Seq<u8>, w: u8, i: int)
    requires
        0 <= i <= s.len(),
    ensures
        i <= spec_find_byte(s, w, i) <= s.len(),
        forall|k: int| i <= k < spec_find_byte(s, w, i) ==> s[k] != w,
        spec_find_byte(s, w, i) < s.len() ==> s[spec_find_byte(s, w, i)] == w,
    decreases s.len() - i,
{
    if i < s.len() && s[i] != w {
        lemma_find_byte_bounds(s, w, i + 1);
    }
}

/// A line with a trailing carriage return stripped, as `str::lines` does.
pub open spec fn spec_strip_cr(l: Seq<u8>) -> Seq<u8> {
    if l.len() > 0 && l[l.len() - 1] == 13 {
        l.drop_last()
    } else {
        l
    }
}

/// The lines of `s` starting at byte `i`: split at line feeds, one
/// trailing carriage return stripped per line, no final empty line.
pub open spec fn spec_lines_from(s: Seq<u8>, i: int) -> Seq<Seq<u8>>
    decreases s.len() - i,
    via spec_lines_from_dec
{
    if i < 0 || i >= s.len() {
        Seq::<Seq<u8>>::empty()
    } else {
        let j = spec_find_byte(s, 10, i);
        if j >= s.len() {
            seq![spec_strip_cr(s.subrange(i, s.len() as int))]
        } else {
            seq![spec_strip_cr(s.subrange(i, j))] + spec_lines_from(s, j + 1)
        }
    }
}

#[via_fn]
proof fn spec_lines_from_dec(s: Seq<u8>, i: int) {
    if 0 <= i < s.len() {
        lemma_find_byte_bounds(s, 10, i);
    }
}

/// All lines of a resource.
pub open spec fn spec_lines(s: Seq<u8>) -> Seq<Seq<u8>> {
    spec_lines_from(s, 0)
}

/// End of the token running from `i`: the first whitespace index at or
/// after `i`, or the length.
pub open spec fn spec_token_end(l: Seq<u8>, i: int) -> int
    decreases l.len() - i,
{
    if i < 0 || i >= l.len() || is_ws(l[i]) {
        i
    } else {
        spec_token_end(l, i + 1)
    }
}

pub proof fn lemma_token_end_bounds(l: Seq<u8>, i: int)
    requires
        0 <= i <= l.len(),
    ensures
        i <= spec_token_end(l, i) <= l.len(),
        forall|k: int| i <= k < spec_token_end(l, i) ==> !is_ws(l[k]),
        spec_token_end(l, i) < l.len() ==> is_ws(l[spec_token_end(l, i)]),
    decreases l.len() - i,
{
    if i < l.len() && !is_ws(l[i]) {
        lemma_token_end_bounds(l, i + 1);
    }
}

/// The whitespace-separated tokens of `l` from index `i` on.
pub open spec fn spec_tokens_from(l: Seq<u8>, i: int) -> Seq<Seq<u8>>
    decreases l.len() - i,
    via spec_tokens_from_dec
{
    if i < 0 || i >= l.len() {
        Seq::<Seq<u8>>::empty()
    } else if is_ws(l[i]) {
        spec_tokens_from(l, i + 1)
    } else {
        let j = spec_token_end(l, i + 1);
        seq![l.subrange(i, j)] + spec_tokens_from(l, j)
    }
}

#[via_fn]
proof fn spec_tokens_from_dec(l: Seq<u8>, i: int) {
    if 0 <= i < l.len() && !is_ws(l[i]) {
        lemma_token_end_bounds(l, i + 1);
    }
}

/// The whitespace-separated tokens of a line.
pub open spec fn spec_tokens(l: Seq<u8>) -> Seq<Seq<u8>> {
    spec_tokens_from(l, 0)
}

/// Whitespace test on a byte.
pub fn is_ws_b(b: u8) -> (r: bool)
    ensures
        r == is_ws(b),
{
    b == 32 || b == 9 || b == 13 || b == 11 || b == 12
}

/// Split a resource into its lines.
pub fn lines_of(data: &[u8]) -> (r: Vec<Vec<u8>>)
    ensures
        r@.map_values(|l: Vec<u8>| l@) == spec_lines(data@),
{
    let mut out: Vec<Vec<u8>> = Vec::new();
    let mut i: usize = 0;
    while i < data.len()
        invariant
            i <= data@.len(),
            spec_lines(data@) == out@.map_values(|l: Vec<u8>| l@) + spec_lines_from(
                data@,
                i as int,
            ),
        decreases data@.len() - i,
    {
        proof {
            lemma_find_byte_bounds(data@, 10, i as int);
        }
        let mut j: usize = i;
        while j < data.len() && data[j] != 10
            invariant
                i <= j <= data@.len(),
                spec_find_byte(data@, 10, i as int) == spec_find_byte(data@, 10, j as int),
            decreases data@.len() - j,
        {
            j += 1;
        }
        let ghost prev = out@.map_values(|l: Vec<u8>| l@);
        let line: Vec<u8> = if j > i && data[j - 1] == 13 {
            slice_to_vec(&data[i..j - 1])
        } else {
            slice_to_vec(&data[i..j])
        };
        proof {
            assert(line@ =~= spec_strip_cr(data@.subrange(i as int, j as int)));
        }
        out.push(line);
        proof {
            assert(out@.map_values(|l: Vec<u8>| l@) =~= prev + seq![line@]);
        }
        if j < data.len() {
            i = j + 1;
        } else {
            i = j;
        }
    }
    out
}

/// Split a line into its whitespace-separated tokens.
pub fn tokens_of(line: &[u8]) -> (r: Vec<Vec<u8>>)
    ensures
        r@.map_values(|t: Vec<u8>| t@) == spec_tokens(line@),
{
    let mut out: Vec<Vec<u8>> = Vec::new();
    let mut i: usize = 0;
    while i < line.len()
        invariant
            i <= line@.len(),
            spec_tokens(line@) == out@.map_values(|t: Vec<u8>| t@) + spec_tokens_from(
                line@,
                i as int,
            ),
        decreases line@.len() - i,
    {
        if is_ws_b(line[i]) {
            i += 1;
        } else {
            proof {
                lemma_token_end_bounds(line@, i as int + 1);
            }
            let mut j: usize = i + 1;
            while j < line.len() && !(line[j] == 32 || line[j] == 9 || line[j] == 13 || line[j]
                == 11 || line[j] == 12)
                invariant
                    i + 1 <= j <= line@.len(),
                    spec_token_end(line@, i as int + 1) == spec_token_end(line@, j as int),
                decreases line@.len() - j,
            {
                j += 1;
            }
            let ghost prev = out@.map_values(|t: Vec<u8>| t@);
            let tok: Vec<u8> = slice_to_vec(&line[i..j]);
            out.push(tok);
            proof {
                assert(out@.map_values(|t: Vec<u8>| t@) =~= prev + seq![tok@]);
            }
            i = j;
        }
    }
    out
}

/// Byte-for-byte equality of two slices.
pub fn bytes_eq(a: &[u8], b: &[u8]) -> (r: bool)
    ensures
        r <==> a@ == b@,
{
    if a.len() != b.len() {
        return false;
    }
    let mut i: usize = 0;
    while i < a.len()
        invariant
            a@.len() == b@.len(),
            i <= a@.len(),
            forall|k: int| 0 <= k < i ==> a@[k] == b@[k],
        decreases a@.len() - i,
    {
        if a[i] != b[i] {
            return false;
        }
        i += 1;
    }
    proof {
        assert(a@ =~= b@);
    }
    true
}

/// Whether `a` begins with the byte prefix `p`.
pub fn bytes_starts_with(a: &[u8], p: &[u8]) -> (r: bool)
    ensures
        r <==> (p@.len() <= a@.len() && a@.subrange(0, p@.len() as int) == p@),
{
    if p.len() > a.len() {
        return false;
    }
    let mut i: usize = 0;
    while i < p.len()
        invariant
            p@.len() <= a@.len(),
            i <= p@.len(),
            forall|k: int| 0 <= k < i ==> a@[k] == p@[k],
        decreases p@.len() - i,
    {
        if a[i] != p[i] {
            proof {
                assert(a@.subrange(0, p@.len() as int)[i as int] != p@[i as int]);
            }
            return false;
        }
        i += 1;
    }
    proof {
        assert(a@.subrange(0, p@.len() as int) =~= p@);
    }
    true
}

/// Every byte is a decimal digit.
pub open spec fn all_digits(t: Seq<u8>) -> bool {
    forall|k: int| 0 <= k < t.len() ==> is_digit(#[trigger] t[k])
}

/// Value of a string of decimal digits, most significant first.
pub open spec fn spec_digits_val(t: Seq<u8>) -> int
    decreases t.len(),
{
    if t.len() == 0 {
        0
    } else {
        spec_digits_val(t.drop_last()) * 10 + (t[t.len() - 1] - 48)
    }
}

/// Powers of ten.
pub open spec fn pow10(n: nat) -> int
    decreases n,
{
    if n == 0 {
        1
    } else {
        10 * pow10((n - 1) as nat)
    }
}

pub proof fn lemma_digits_val_nonneg(t: Seq<u8>)
    requires
        all_digits(t),
    ensures
        spec_digits_val(t) >= 0,
    decreases t.len(),
{
    if t.len() > 0 {
        assert(all_digits(t.drop_last()));
        lemma_digits_val_nonneg(t.drop_last());
    }
}

/// A digit string's value never exceeds that of any digit string it
/// prefixes.
pub proof fn lemma_digits_val_take_le(t: Seq<u8>, n: int)
    requires
        all_digits(t),
        0 <= n <= t.len(),
    ensures
        0 <= spec_digits_val(t.take(n)) <= spec_digits_val(t),
    decreases t.len() - n,
{
    if n == t.len() {
        assert(t.take(n) =~= t);
        lemma_digits_val_nonneg(t);
    } else {
        lemma_digits_val_take_le(t, n + 1);
        assert(t.take(n + 1).drop_last() =~= t.take(n));
        assert(all_digits(t.take(n)));
        lemma_digits_val_nonneg(t.take(n));
    }
}

/// A string of `n` digits has value below `pow10(n)`.
pub proof fn lemma_digits_val_upper(t: Seq<u8>)
    requires
        all_digits(t),
    ensures
        spec_digits_val(t) < pow10(t.len()),
    decreases t.len(),
{
    if t.len() > 0 {
        assert(all_digits(t.drop_last()));
        lemma_digits_val_upper(t.drop_last());
    }
}

/// Appending `n` zero digits multiplies the value by `pow10(n)`.
pub proof fn lemma_digits_val_append_zeros(f: Seq<u8>, n: nat)
    ensures
        spec_digits_val(f + Seq::new(n, |k: int| 48u8)) == spec_digits_val(f) * pow10(n),
    decreases n,
{
    let zs = Seq::new(n, |k: int| 48u8);
    if n == 0 {
        assert(f + zs =~= f);
    } else {
        let zs1 = Seq::new((n - 1) as nat, |k: int| 48u8);
        lemma_digits_val_append_zeros(f, (n - 1) as nat);
        assert((f + zs).drop_last() =~= f + zs1);
        assert((f + zs).last() == 48);
        assert(spec_digits_val(f + zs) == spec_digits_val(f) * pow10((n - 1) as nat) * 10);
        assert(spec_digits_val(f) * pow10((n - 1) as nat) * 10 == spec_digits_val(f) * (pow10(
            (n - 1) as nat,
        ) * 10)) by (nonlinear_arith);
    }
}

/// Optional leading sign of a numeric token: whether it is negative, and
/// the bytes after the sign.
pub open spec fn spec_sign_split(t: Seq<u8>) -> (bool, Seq<u8>) {
    if t.len() > 0 && (t[0] == 43 || t[0] == 45) {
        (t[0] == 45, t.skip(1))
    } else {
        (false, t)
    }
}

/// Parse an unsigned digit string, refusing values above `limit`.
///
/// `None` exactly when the bytes are not all digits or the value exceeds
/// the limit; `Some` carries the exact value.
fn parse_digits_upto(s: &[u8], limit: u64) -> (r: Option<u64>)
    requires
        limit <= 1_000_000_000_000_000_000,
    ensures
        r matches Some(v) ==> all_digits(s@) && v as int == spec_digits_val(s@) && v <= limit,
        r is None ==> !(all_digits(s@) && spec_digits_val(s@) <= limit),
{
    let mut acc: u64 = 0;
    let mut k: usize = 0;
    while k < s.len()
        invariant
            k <= s@.len(),
            limit <= 1_000_000_000_000_000_000,
            all_digits(s@.take(k as int)),
            acc as int == spec_digits_val(s@.take(k as int)),
            acc <= limit,
        decreases s@.len() - k,
    {
        let b = s[k];
        if b < 48 || b > 57 {
            return None;
        }
        proof {
            assert(s@.take(k as int + 1).drop_last() =~= s@.take(k as int));
        }
        acc = acc * 10 + ((b - 48) as u64);
        k += 1;
        if acc > limit {
            proof {
                if all_digits(s@) {
                    lemma_digits_val_take_le(s@, k as int);
                }
            }
            return None;
        }
    }
    proof {
        assert(s@.take(k as int) =~= s@);
    }
    Some(acc)
}

/// Every byte of the slice is a decimal digit.
fn all_digits_b(s: &[u8]) -> (r: bool)
    ensures
        r == all_digits(s@),
{
    let mut k: usize = 0;
    while k < s.len()
        invariant
            k <= s@.len(),
            all_digits(s@.take(k as int)),
        decreases s@.len() - k,
    {
        let b = s[k];
        if b < 48 || b > 57 {
            return false;
        }
        proof {
            assert(s@.take(k as int + 1).drop_last() =~= s@.take(k as int));
        }
        k += 1;
    }
    proof {
        assert(s@.take(k as int) =~= s@);
    }
    true
}

/// Value of a decimal integer token under the descriptor grammars'
/// 32-bit parse: optional sign, then digits. Any other shape, or a value
/// outside the 32-bit signed range, yields 0.
pub open spec fn spec_parse_i32(t: Seq<u8>) -> int {
    let s = spec_sign_split(t);
    let v = if s.0 {
        -spec_digits_val(s.1)
    } else {
        spec_digits_val(s.1)
    };
    if s.1.len() > 0 && all_digits(s.1) && -2_147_483_648 <= v <= 2_147_483_647 {
        v
    } else {
        0
    }
}

/// Parse a decimal integer token; exactly [`spec_parse_i32`].
pub fn parse_i32_tok(t: &[u8]) -> (v: i64)
    ensures
        v as int == spec_parse_i32(t@),
{
    let mut i: usize = 0;
    let mut neg = false;
    if t.len() > 0 && (t[0] == 43 || t[0] == 45) {
        neg = t[0] == 45;
        i = 1;
    }
    let ds = &t[i..t.len()];
    proof {
        assert(ds@ =~= spec_sign_split(t@).1);
    }
    if ds.len() == 0 {
        return 0;
    }
    match parse_digits_upto(ds, 2_147_483_648) {
        None => 0,
        Some(v) => {
            if neg {
                -(v as i64)
            } else if v <= 2_147_483_647 {
                v as i64
            } else {
                0
            }
        },
    }
}

/// Pad or cut a fraction's digit string to exactly 8 digits.
pub open spec fn spec_pad8(f: Seq<u8>) -> Seq<u8> {
    if f.len() >= 8 {
        f.take(8)
    } else {
        f + Seq::new((8 - f.len()) as nat, |k: int| 48u8)
    }
}

/// Fixed-point value, in microseconds of a day, of a decimal day-count
/// token: optional sign, integer digits, optionally a point and fraction
/// digits. The fraction is taken to 8 digits (a hundredth of a
/// microsecond of a day); a token whose integer part exceeds 100 million
/// days cannot be represented and yields 0, as does any malformed token.
pub open spec fn spec_parse_day_micros(t: Seq<u8>) -> int {
    let s = spec_sign_split(t);
    let d = s.1;
    let dot = spec_find_byte(d, 46, 0);
    let intp = d.take(dot);
    let fracp = if dot < d.len() {
        d.skip(dot + 1)
    } else {
        Seq::<u8>::empty()
    };
    if intp.len() + fracp.len() > 0 && all_digits(intp) && all_digits(fracp) && spec_digits_val(
        intp,
    ) <= 100_000_000 {
        let v = spec_digits_val(intp) * 86_400_000_000 + spec_digits_val(spec_pad8(fracp)) * 864;
        if s.0 {
            -v
        } else {
            v
        }
    } else {
        0
    }
}

/// Multiply a value of at most `width` digits up to the fixed 8-digit
/// width of the day fraction.
fn scale_to_width8(hv: u64, width: usize) -> (r: u64)
    requires
        width <= 8,
        hv as int * pow10((8 - width) as nat) < 100_000_000,
        0 <= hv,
    ensures
        r as int == hv as int * pow10((8 - width) as nat),
        r < 100_000_000,
{
    proof {
        reveal_with_fuel(pow10, 10);
    }
    let m: u64 = if width == 0 {
        100_000_000
    } else if width == 1 {
        10_000_000
    } else if width == 2 {
        1_000_000
    } else if width == 3 {
        100_000
    } else if width == 4 {
        10_000
    } else if width == 5 {
        1_000
    } else if width == 6 {
        100
    } else if width == 7 {
        10
    } else {
        1
    };
    hv * m
}

/// Find the first occurrence of `w`, or the length.
fn find_byte(s: &[u8], w: u8) -> (r: usize)
    ensures
        r as int == spec_find_byte(s@, w, 0),
{
    proof {
        lemma_find_byte_bounds(s@, w, 0);
    }
    let mut k: usize = 0;
    while k < s.len() && s[k] != w
        invariant
            k <= s@.len(),
            spec_find_byte(s@, w, 0) == spec_find_byte(s@, w, k as int),
        decreases s@.len() - k,
    {
        k += 1;
    }
    k
}

/// Parse a decimal day-count token to microseconds of a day; exactly
/// [`spec_parse_day_micros`].
#[verifier::rlimit(50)]
pub fn parse_day_micros_tok(t: &[u8]) -> (v: i64)
    ensures
        v as int == spec_parse_day_micros(t@),
{
    let mut i: usize = 0;
    let mut neg = false;
    if t.len() > 0 && (t[0] == 43 || t[0] == 45) {
        neg = t[0] == 45;
        i = 1;
    }
    let ds = &t[i..t.len()];
    proof {
        assert(ds@ =~= spec_sign_split(t@).1);
        lemma_find_byte_bounds(ds@, 46, 0);
    }
    let dot = find_byte(ds, 46);
    let ghost gfracp: Seq<u8> = if (dot as int) < ds@.len() {
        ds@.skip(dot as int + 1)
    } else {
        Seq::<u8>::empty()
    };
    let intp = &ds[0..dot];
    proof {
        assert(intp@ =~= ds@.take(dot as int));
    }
    let intval: u64 = match parse_digits_upto(intp, 100_000_000) {
        None => {
            return 0;
        },
        Some(v) => v,
    };
    let mut frac8: u64 = 0;
    let mut fraclen: usize = 0;
    if dot < ds.len() {
        let fracp = &ds[dot + 1..ds.len()];
        proof {
            assert(fracp@ =~= gfracp);
        }
        fraclen = fracp.len();
        let cut: usize = if fraclen >= 8 {
            8
        } else {
            fraclen
        };
        let head = &fracp[0..cut];
        let tail = &fracp[cut..fracp.len()];
        proof {
            assert(head@ =~= fracp@.take(cut as int));
            assert(tail@ =~= fracp@.skip(cut as int));
        }
        if !all_digits_b(tail) {
            proof {
                let bad = choose|k: int| 0 <= k < tail@.len() && !is_digit(tail@[k]);
                assert(gfracp[bad + cut as int] == tail@[bad]);
                assert(!all_digits(gfracp));
            }
            return 0;
        }
        let hv = match parse_digits_upto(head, 1_000_000_000) {
            None => {
                proof {
                    if all_digits(head@) {
                        lemma_digits_val_upper(head@);
                        lemma_pow10_mono(head@.len(), 9);
                        reveal_with_fuel(pow10, 11);
                    }
                    let bad = choose|k: int| 0 <= k < head@.len() && !is_digit(head@[k]);
                    assert(gfracp[bad] == head@[bad]);
                    assert(!all_digits(gfracp));
                }
                return 0;
            },
            Some(v) => v,
        };
        proof {
            assert forall|k: int| 0 <= k < gfracp.len() implies is_digit(#[trigger] gfracp[k]) by {
                if k < cut as int {
                    assert(gfracp[k] == head@[k]);
                } else {
                    assert(gfracp[k] == tail@[k - cut as int]);
                }
            }
            lemma_digits_val_upper(head@);
            lemma_digits_val_nonneg(head@);
            lemma_digits_val_append_zeros(head@, (8 - cut) as nat);
            lemma_pow10_add(cut as nat, (8 - cut) as nat);
            lemma_pow10_pos((8 - cut) as nat);
            assert(spec_digits_val(head@) * pow10((8 - cut) as nat) < pow10(cut as nat) * pow10(
                (8 - cut) as nat,
            )) by (nonlinear_arith)
                requires
                    spec_digits_val(head@) < pow10(cut as nat),
                    pow10((8 - cut) as nat) >= 1,
            ;
            reveal_with_fuel(pow10, 10);
        }
        // scale the first `cut` digits up to the fixed 8-digit width
        frac8 = scale_to_width8(hv, cut);
        proof {
            lemma_digits_val_append_zeros(head@, (8 - cut) as nat);
            if cut == 8 {
                assert(spec_pad8(gfracp) =~= head@);
                assert(head@ + Seq::new(0nat, |k: int| 48u8) =~= head@);
            } else {
                assert(spec_pad8(gfracp) =~= head@ + Seq::new((8 - cut) as nat, |k: int| 48u8));
            }
            assert(frac8 as int == spec_digits_val(spec_pad8(gfracp)));
            assert(frac8 < 100_000_000);
        }
    } else {
        proof {
            lemma_digits_val_append_zeros(Seq::<u8>::empty(), 8);
            assert(spec_pad8(gfracp) =~= Seq::<u8>::empty() + Seq::new(8nat, |k: int| 48u8));
            assert(frac8 as int == spec_digits_val(spec_pad8(gfracp)));
        }
    }
    if intp.len() == 0 && fraclen == 0 {
        return 0;
    }
    let v: u64 = intval * 86_400_000_000 + frac8 * 864;
    if neg {
        -(v as i64)
    } else {
        v as i64
    }
}

pub proof fn lemma_pow10_pos(n: nat)
    ensures
        pow10(n) >= 1,
    decreases n,
{
    if n > 0 {
        lemma_pow10_pos((n - 1) as nat);
    }
}

/// `pow10` splits over addition of exponents.
pub proof fn lemma_pow10_add(a: nat, b: nat)
    ensures
        pow10(a + b) == pow10(a) * pow10(b),
    decreases a,
{
    if a == 0 {
    } else {
        lemma_pow10_add((a - 1) as nat, b);
        assert(pow10(a + b) == 10 * pow10((a - 1) as nat + b));
        assert(10 * (pow10((a - 1) as nat) * pow10(b)) == (10 * pow10((a - 1) as nat)) * pow10(
            b,
        )) by (nonlinear_arith);
    }
}

/// `pow10` is monotone in the exponent.
pub proof fn lemma_pow10_mono(a: nat, b: nat)
    requires
        a <= b,
    ensures
        pow10(a) <= pow10(b),
    decreases b,
{
    if a < b {
        lemma_pow10_mono(a, (b - 1) as nat);
        lemma_pow10_pos((b - 1) as nat);
    }
}

/// Width of the trailing FORTRAN exponent field that the mass-ratio
/// repair strips (the `D+nn` suffix).
pub const EXPONENT_FIELD_WIDTH: usize = 4;

/// The FORTRAN exponent repair: the trailing exponent field is stripped
/// and a literal `E` appended, yielding a standard-notation literal.
pub open spec fn spec_repair_exponent(t: Seq<u8>) -> Seq<u8> {
    t.take(t.len() - EXPONENT_FIELD_WIDTH).push(69)
}

/// Apply the FORTRAN exponent repair to a token of sufficient width.
pub fn repair_exponent(t: &[u8]) -> (r: Vec<u8>)
    requires
        t@.len() >= EXPONENT_FIELD_WIDTH,
    ensures
        r@ == spec_repair_exponent(t@),
{
    let mut r = slice_to_vec(&t[0..t.len() - EXPONENT_FIELD_WIDTH]);
    r.push(69);
    proof {
        assert(r@ =~= spec_repair_exponent(t@));
    }
    r
}

} // verus!
