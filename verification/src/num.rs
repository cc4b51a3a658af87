use vstd::prelude::*;
use rustc_apfloat::Float;

verus! {

// ---------------------------------------------------------------------------
// Numbers of the language are IEEE 754 doubles, held everywhere in the
// verified core as their 64-bit pattern.  The double-precision work itself
// (arithmetic, ordering, decimal reading and printing) is done by
// rustc_apfloat, a pure software implementation of IEEE 754, through the
// trusted wrappers below; each wrapper's result is named by an
// uninterpreted spec function of the operands' bit patterns.
// ---------------------------------------------------------------------------

/// The bit pattern of positive zero.
pub const ZERO_BITS: u64 = 0;

/// The bit pattern of negative zero.
pub const NEG_ZERO_BITS: u64 = 0x8000_0000_0000_0000;

/// The bit pattern of one.
pub const ONE_BITS: u64 = 0x3FF0_0000_0000_0000;

/// The bit pattern of positive infinity.
pub const POS_INF_BITS: u64 = 0x7FF0_0000_0000_0000;

/// The bit pattern of negative infinity.
pub const NEG_INF_BITS: u64 = 0xFFF0_0000_0000_0000;

/// A pattern encodes a NaN when its exponent field is all ones and its
/// mantissa field is not zero.
pub open spec fn is_nan_bits(n: u64) -> bool {
    (n >> 52) & 0x7FF == 0x7FF && n & 0x000F_FFFF_FFFF_FFFF != 0
}

/// The bit pattern of the double-precision sum of the doubles the two
/// patterns encode.
pub uninterp spec fn add_bits(a: u64, b: u64) -> u64;

/// The bit pattern of the double-precision difference of the doubles the
/// two patterns encode.
pub uninterp spec fn sub_bits(a: u64, b: u64) -> u64;

/// The bit pattern of the double-precision product of the doubles the two
/// patterns encode.
pub uninterp spec fn mul_bits(a: u64, b: u64) -> u64;

/// The bit pattern of the double-precision quotient of the doubles the two
/// patterns encode.
pub uninterp spec fn div_bits(a: u64, b: u64) -> u64;

/// Whether the doubles the two patterns encode compare equal under IEEE 754
/// (so NaN equals nothing, and the two zeros are equal).
pub uninterp spec fn eq_bits(a: u64, b: u64) -> bool;

/// Whether the double the first pattern encodes is strictly below the one
/// the second encodes under the IEEE 754 partial order.
pub uninterp spec fn lt_bits(a: u64, b: u64) -> bool;

/// What rustc_apfloat's decimal scientific rendering of the double encoded
/// by `n` gives with `p` significant digits.
pub uninterp spec fn fmt_sci_bits(n: u64, p: usize) -> Seq<char>;

/// What reading the text as a decimal double literal gives, correctly
/// rounded: the bit pattern, or `None` when the text is not a number.
pub uninterp spec fn parse_bits(s: Seq<char>) -> Option<u64>;

/// Relies on rustc_apfloat's double addition (round to nearest even), a
/// pure function of the operands' bit patterns.
#[verifier::external_body]
pub(crate) fn num_add(a: u64, b: u64) -> (r: u64)
    ensures
        r == add_bits(a, b),
{
    let x = rustc_apfloat::ieee::Double::from_bits(a as u128);
    let y = rustc_apfloat::ieee::Double::from_bits(b as u128);
    (x + y).value.to_bits() as u64
}

/// Relies on rustc_apfloat's double subtraction (round to nearest even), a
/// pure function of the operands' bit patterns.
#[verifier::external_body]
pub(crate) fn num_sub(a: u64, b: u64) -> (r: u64)
    ensures
        r == sub_bits(a, b),
{
    let x = rustc_apfloat::ieee::Double::from_bits(a as u128);
    let y = rustc_apfloat::ieee::Double::from_bits(b as u128);
    (x - y).value.to_bits() as u64
}

/// Relies on rustc_apfloat's double multiplication (round to nearest even),
/// a pure function of the operands' bit patterns.
#[verifier::external_body]
pub(crate) fn num_mul(a: u64, b: u64) -> (r: u64)
    ensures
        r == mul_bits(a, b),
{
    let x = rustc_apfloat::ieee::Double::from_bits(a as u128);
    let y = rustc_apfloat::ieee::Double::from_bits(b as u128);
    (x * y).value.to_bits() as u64
}

/// Relies on rustc_apfloat's double division (round to nearest even), a
/// pure function of the operands' bit patterns; division by zero gives an
/// infinity or NaN as IEEE 754 prescribes.
#[verifier::external_body]
pub(crate) fn num_div(a: u64, b: u64) -> (r: u64)
    ensures
        r == div_bits(a, b),
{
    let x = rustc_apfloat::ieee::Double::from_bits(a as u128);
    let y = rustc_apfloat::ieee::Double::from_bits(b as u128);
    (x / y).value.to_bits() as u64
}

/// Relies on rustc_apfloat's `PartialEq`, which compares as IEEE 754
/// equality of the encoded doubles.
#[verifier::external_body]
pub(crate) fn num_eq(a: u64, b: u64) -> (r: bool)
    ensures
        r == eq_bits(a, b),
{
    let x = rustc_apfloat::ieee::Double::from_bits(a as u128);
    let y = rustc_apfloat::ieee::Double::from_bits(b as u128);
    x == y
}

/// Relies on rustc_apfloat's `PartialOrd`, the IEEE 754 partial order of
/// the encoded doubles.
#[verifier::external_body]
pub(crate) fn num_lt(a: u64, b: u64) -> (r: bool)
    ensures
        r == lt_bits(a, b),
{
    let x = rustc_apfloat::ieee::Double::from_bits(a as u128);
    let y = rustc_apfloat::ieee::Double::from_bits(b as u128);
    x < y
}

/// Relies on rustc_apfloat's `PartialOrd`: under the IEEE 754 partial
/// order, `a <= b` holds exactly when `a < b` or `a == b`.
#[verifier::external_body]
pub(crate) fn num_le(a: u64, b: u64) -> (r: bool)
    ensures
        r == (lt_bits(a, b) || eq_bits(a, b)),
{
    let x = rustc_apfloat::ieee::Double::from_bits(a as u128);
    let y = rustc_apfloat::ieee::Double::from_bits(b as u128);
    x <= y
}

/// Relies on rustc_apfloat's `Display`: with a width of zero it prints the
/// encoded double in scientific notation with `p` significant digits.
#[verifier::external_body]
pub(crate) fn num_fmt_sci(n: u64, p: usize) -> (r: Vec<char>)
    ensures
        r@ == fmt_sci_bits(n, p),
{
    let d = rustc_apfloat::ieee::Double::from_bits(n as u128);
    format!("{:w$.p$}", d, w = 0usize, p = p).chars().collect()
}

/// Relies on rustc_apfloat's `FromStr`, which reads a decimal (optionally
/// scientific) double literal, correctly rounded to nearest even.
#[verifier::external_body]
pub(crate) fn num_parse(s: &Vec<char>) -> (r: Option<u64>)
    ensures
        r == parse_bits(s@),
{
    let t: String = s.iter().collect();
    match t.parse::<rustc_apfloat::ieee::Double>() {
        Ok(d) => Some(d.to_bits() as u64),
        Err(_) => None,
    }
}

/// A number counts as true when it is not numerically zero, so NaN counts
/// as true and both zeros count as false.
pub open spec fn truthy_bits(n: u64) -> bool {
    !eq_bits(n, ZERO_BITS)
}

pub(crate) fn num_truthy(n: u64) -> (r: bool)
    ensures
        r == truthy_bits(n),
{
    !num_eq(n, ZERO_BITS)
}

/// The number a comparison result turns into: one for true, zero for false.
pub open spec fn bool_bits(b: bool) -> u64 {
    if b {
        ONE_BITS
    } else {
        ZERO_BITS
    }
}

pub(crate) fn num_of_bool(b: bool) -> (r: u64)
    ensures
        r == bool_bits(b),
{
    if b {
        ONE_BITS
    } else {
        ZERO_BITS
    }
}

// ---------------------------------------------------------------------------
// Decimal rendering.  A nonzero finite number is printed by asking the
// formatter for the fewest significant digits that read back to the same
// bit pattern (seventeen always suffice for a double), then laying the
// scientific form out in plain positional notation, the way the number
// would naturally be written.
// ---------------------------------------------------------------------------

pub open spec fn is_dig(c: char) -> bool {
    0x30 <= (c as u32) && (c as u32) <= 0x39
}

pub open spec fn dig_val(c: char) -> int {
    (c as u32) - 0x30
}

pub open spec fn all_digs(s: Seq<char>) -> bool {
    forall|i: int| 0 <= i < s.len() ==> is_dig(#[trigger] s[i])
}

/// The value of a digit string read in base ten.
pub open spec fn digits_val(s: Seq<char>) -> int
    decreases s.len(),
{
    if s.len() == 0 {
        0
    } else {
        digits_val(s.drop_last()) * 10 + dig_val(s.last())
    }
}

/// A run of `n` zero characters.
pub open spec fn zeros(n: nat) -> Seq<char> {
    Seq::new(n, |i: int| '0')
}

/// The digit string with its trailing zeros removed, keeping at least one
/// character.
pub open spec fn strip_tz(s: Seq<char>) -> Seq<char>
    decreases s.len(),
{
    if s.len() <= 1 {
        s
    } else if s.last() == '0' {
        strip_tz(s.drop_last())
    } else {
        s
    }
}

/// The first position at or after `i` holding `'E'`, or `-1` if none.
pub open spec fn find_e(s: Seq<char>, i: int) -> int
    decreases s.len() - i,
{
    if i < 0 || i >= s.len() {
        -1
    } else if s[i] == 'E' {
        i
    } else {
        find_e(s, i + 1)
    }
}

/// Splits a rendering of the shape `[-]d.d+E[+-]d+` into its sign, its
/// significant digits (trailing zeros dropped), and the power of ten of
/// its leading digit; any other shape gives `None`.
pub open spec fn sci_parts(s: Seq<char>) -> Option<(bool, Seq<char>, int)> {
    let neg = s.len() > 0 && s[0] == '-';
    let b: int = if neg { 1 } else { 0 };
    let e = find_e(s, b);
    if b + 3 <= e && e + 3 <= s.len() && is_dig(s[b]) && s[b + 1] == '.' && all_digs(
        s.subrange(b + 2, e),
    ) && (s[e + 1] == '+' || s[e + 1] == '-') && all_digs(s.subrange(e + 2, s.len() as int))
        && s.len() - (e + 2) <= 3 {
        let digits = strip_tz(seq![s[b]] + s.subrange(b + 2, e));
        let ev = digits_val(s.subrange(e + 2, s.len() as int));
        Some((neg, digits, if s[e + 1] == '-' { -ev } else { ev }))
    } else {
        None
    }
}

/// Lays significant digits with a known leading power of ten out in plain
/// positional notation, as the number would naturally be written.
pub open spec fn plain_of(neg: bool, digits: Seq<char>, exp: int) -> Seq<char> {
    let len = digits.len() as int;
    let core = if exp >= len - 1 {
        digits + zeros((exp - (len - 1)) as nat)
    } else if exp >= 0 {
        digits.subrange(0, exp + 1) + seq!['.'] + digits.subrange(exp + 1, len)
    } else {
        seq!['0', '.'] + zeros((-exp - 1) as nat) + digits
    };
    if neg {
        seq!['-'] + core
    } else {
        core
    }
}

/// A scientific rendering rewritten in plain notation; text of any other
/// shape is passed through unchanged.
pub open spec fn sci_to_plain(s: Seq<char>) -> Seq<char> {
    match sci_parts(s) {
        Some((neg, digits, exp)) => plain_of(neg, digits, exp),
        None => s,
    }
}

/// The scientific rendering with the fewest significant digits, from `p`
/// upward, that reads back to the same bit pattern; seventeen digits are
/// used when no fewer suffice.
pub open spec fn shortest_sci(n: u64, p: int) -> Seq<char>
    decreases 17 - p,
{
    if p >= 17 {
        fmt_sci_bits(n, 17)
    } else if parse_bits(fmt_sci_bits(n, p as usize)) == Some(n) {
        fmt_sci_bits(n, p as usize)
    } else {
        shortest_sci(n, p + 1)
    }
}

/// The text a number is displayed as: `inf`, `-inf`, `NaN` and the zeros
/// directly from the bit pattern, every other number as its shortest
/// read-back decimal in plain notation.
pub open spec fn num_display(n: u64) -> Seq<char> {
    if n == POS_INF_BITS {
        seq!['i', 'n', 'f']
    } else if n == NEG_INF_BITS {
        seq!['-', 'i', 'n', 'f']
    } else if is_nan_bits(n) {
        seq!['N', 'a', 'N']
    } else if n == ZERO_BITS {
        seq!['0']
    } else if n == NEG_ZERO_BITS {
        seq!['-', '0']
    } else {
        sci_to_plain(shortest_sci(n, 1))
    }
}

/// Rewrites one scientific rendering in plain notation, as `sci_to_plain`
/// describes.
#[verifier::rlimit(100)]
fn sci_plain_vec(s: Vec<char>) -> (r: Vec<char>)
    ensures
        r@ == sci_to_plain(s@),
{
    let len = s.len();
    let neg = len > 0 && s[0] == '-';
    let b: usize = if neg {
        1
    } else {
        0
    };
    let mut ei: usize = b;
    while ei < len && s[ei] != 'E'
        invariant
            b <= ei <= len,
            len == s@.len(),
            b == (if s@.len() > 0 && s@[0] == '-' {
                1int
            } else {
                0int
            }),
            find_e(s@, b as int) == find_e(s@, ei as int),
        decreases len - ei,
    {
        ei = ei + 1;
    }
    if ei == len {
        assert(find_e(s@, b as int) == -1);
        return s;
    }
    assert(find_e(s@, b as int) == ei as int);
    if !(b + 3 <= ei && len - ei >= 3) {
        return s;
    }
    let cb = s[b];
    if !((cb as u32) >= 0x30 && (cb as u32) <= 0x39) {
        return s;
    }
    if !(s[b + 1] == '.') {
        return s;
    }
    let mut j: usize = b + 2;
    while j < ei
        invariant
            b + 2 <= j <= ei,
            ei < len,
            len == s@.len(),
            b == (if s@.len() > 0 && s@[0] == '-' {
                1int
            } else {
                0int
            }),
            find_e(s@, b as int) == ei as int,
            forall|k: int| b + 2 <= k < j ==> is_dig(#[trigger] s@[k]),
        decreases ei - j,
    {
        let c = s[j];
        if !((c as u32) >= 0x30 && (c as u32) <= 0x39) {
            assert(s@.subrange(b + 2, ei as int)[j - b - 2] == s@[j as int]);
            assert(!all_digs(s@.subrange(b + 2, ei as int)));
            return s;
        }
        j = j + 1;
    }
    assert forall|k: int| 0 <= k < s@.subrange(b + 2, ei as int).len() implies is_dig(
        #[trigger] s@.subrange(b + 2, ei as int)[k],
    ) by {
        assert(s@.subrange(b + 2, ei as int)[k] == s@[b + 2 + k]);
    }
    let csign = s[ei + 1];
    if !(csign == '+' || csign == '-') {
        return s;
    }
    let mut j2: usize = ei + 2;
    while j2 < len
        invariant
            ei + 2 <= j2 <= len,
            len == s@.len(),
            ei + 1 < len,
            b + 3 <= ei,
            b == (if s@.len() > 0 && s@[0] == '-' {
                1int
            } else {
                0int
            }),
            find_e(s@, b as int) == ei as int,
            forall|k: int| ei + 2 <= k < j2 ==> is_dig(#[trigger] s@[k]),
        decreases len - j2,
    {
        let c = s[j2];
        if !((c as u32) >= 0x30 && (c as u32) <= 0x39) {
            assert(s@.subrange(ei + 2, len as int)[j2 - ei - 2] == s@[j2 as int]);
            assert(!all_digs(s@.subrange(ei + 2, len as int)));
            return s;
        }
        j2 = j2 + 1;
    }
    assert forall|k: int| 0 <= k < s@.subrange(ei + 2, len as int).len() implies is_dig(
        #[trigger] s@.subrange(ei + 2, len as int)[k],
    ) by {
        assert(s@.subrange(ei + 2, len as int)[k] == s@[ei + 2 + k]);
    }
    if !(len - (ei + 2) <= 3) {
        return s;
    }
    // The shape is good: gather the significant digits.
    let ghost parts = sci_parts(s@);
    let mut d: Vec<char> = Vec::new();
    d.push(s[b]);
    let mut j3: usize = b + 2;
    while j3 < ei
        invariant
            b + 2 <= j3 <= ei,
            ei < len,
            len == s@.len(),
            b + 3 <= ei,
            d@ == seq![s@[b as int]] + s@.subrange(b + 2, j3 as int),
        decreases ei - j3,
    {
        d.push(s[j3]);
        assert(s@.subrange(b + 2, j3 + 1int) =~= s@.subrange(b + 2, j3 as int).push(
            s@[j3 as int],
        ));
        j3 = j3 + 1;
    }
    let ghost digits0 = seq![s@[b as int]] + s@.subrange(b + 2, ei as int);
    while d.len() > 1 && d[d.len() - 1] == '0'
        invariant
            d@.len() >= 1,
            strip_tz(digits0) == strip_tz(d@),
        decreases d@.len(),
    {
        let _ = d.pop();
    }
    assert(strip_tz(d@) == d@);
    // Read the exponent.
    let mut ev: u32 = 0;
    let mut j4: usize = ei + 2;
    while j4 < len
        invariant
            ei + 2 <= j4 <= len,
            len == s@.len(),
            ei + 1 < len,
            len - (ei + 2) <= 3,
            forall|k: int| ei + 2 <= k < len ==> is_dig(#[trigger] s@[k]),
            ev as int == digits_val(s@.subrange(ei + 2, j4 as int)),
            (j4 - (ei + 2) == 0 && ev == 0) || (j4 - (ei + 2) == 1 && ev < 10) || (j4 - (ei + 2)
                == 2 && ev < 100) || (j4 - (ei + 2) == 3 && ev < 1000),
        decreases len - j4,
    {
        let c = s[j4];
        assert(is_dig(s@[j4 as int]));
        ev = ev * 10 + ((c as u32) - 0x30);
        assert(s@.subrange(ei + 2, j4 + 1int).drop_last() =~= s@.subrange(ei + 2, j4 as int));
        j4 = j4 + 1;
    }
    assert(s@.subrange(ei + 2, len as int) =~= s@.subrange(ei + 2, j4 as int));
    let exp: i64 = if csign == '-' {
        -(ev as i64)
    } else {
        ev as i64
    };
    let ghost (negg, digitsg, expg) = parts->Some_0;
    proof {
        assert(negg == neg && digitsg == d@ && expg == exp as int);
    }
    // Lay the digits out in plain notation.
    let dl = d.len();
    let mut r: Vec<char> = Vec::new();
    if neg {
        r.push('-');
    }
    let ghost presign = r@;
    if exp >= 0 && (exp as usize) + 1 >= dl {
        let zcount: usize = (exp as usize) + 1 - dl;
        let mut i: usize = 0;
        while i < dl
            invariant
                i <= dl,
                dl == d@.len(),
                r@ == presign + d@.subrange(0, i as int),
            decreases dl - i,
        {
            r.push(d[i]);
            assert(d@.subrange(0, i + 1int) =~= d@.subrange(0, i as int).push(d@[i as int]));
            i = i + 1;
        }
        assert(d@.subrange(0, dl as int) =~= d@);
        let mut z: usize = 0;
        while z < zcount
            invariant
                z <= zcount,
                r@ == presign + d@ + zeros(z as nat),
            decreases zcount - z,
        {
            r.push('0');
            assert(zeros((z + 1) as nat) =~= zeros(z as nat).push('0'));
            z = z + 1;
        }
        proof {
            assert(r@ =~= plain_of(negg, digitsg, expg));
        }
        r
    } else if exp >= 0 {
        let cut: usize = (exp as usize) + 1;
        let mut i: usize = 0;
        while i < cut
            invariant
                i <= cut,
                cut <= dl,
                dl == d@.len(),
                r@ == presign + d@.subrange(0, i as int),
            decreases cut - i,
        {
            r.push(d[i]);
            assert(d@.subrange(0, i + 1int) =~= d@.subrange(0, i as int).push(d@[i as int]));
            i = i + 1;
        }
        r.push('.');
        let ghost predot = r@;
        let mut i2: usize = cut;
        while i2 < dl
            invariant
                cut <= i2 <= dl,
                dl == d@.len(),
                r@ == predot + d@.subrange(cut as int, i2 as int),
            decreases dl - i2,
        {
            r.push(d[i2]);
            assert(d@.subrange(cut as int, i2 + 1int) =~= d@.subrange(cut as int, i2 as int).push(
                d@[i2 as int],
            ));
            i2 = i2 + 1;
        }
        proof {
            assert(r@ =~= plain_of(negg, digitsg, expg));
        }
        r
    } else {
        r.push('0');
        r.push('.');
        let ghost prez = r@;
        let zcount: usize = ((-exp) as usize) - 1;
        let mut z: usize = 0;
        while z < zcount
            invariant
                z <= zcount,
                r@ == prez + zeros(z as nat),
            decreases zcount - z,
        {
            r.push('0');
            assert(zeros((z + 1) as nat) =~= zeros(z as nat).push('0'));
            z = z + 1;
        }
        let ghost prem = r@;
        let mut i: usize = 0;
        while i < dl
            invariant
                i <= dl,
                dl == d@.len(),
                r@ == prem + d@.subrange(0, i as int),
            decreases dl - i,
        {
            r.push(d[i]);
            assert(d@.subrange(0, i + 1int) =~= d@.subrange(0, i as int).push(d@[i as int]));
            i = i + 1;
        }
        assert(d@.subrange(0, dl as int) =~= d@);
        proof {
            assert(r@ =~= plain_of(negg, digitsg, expg));
        }
        r
    }
}

/// The display text of the number `n` encodes, as `num_display` describes.
pub fn num_to_chars(n: u64) -> (r: Vec<char>)
    ensures
        r@ == num_display(n),
{
    if n == POS_INF_BITS {
        let mut v: Vec<char> = Vec::new();
        v.push('i');
        v.push('n');
        v.push('f');
        assert(v@ =~= seq!['i', 'n', 'f']);
        return v;
    }
    if n == NEG_INF_BITS {
        let mut v: Vec<char> = Vec::new();
        v.push('-');
        v.push('i');
        v.push('n');
        v.push('f');
        assert(v@ =~= seq!['-', 'i', 'n', 'f']);
        return v;
    }
    if (n >> 52) & 0x7FF == 0x7FF && n & 0x000F_FFFF_FFFF_FFFF != 0 {
        let mut v: Vec<char> = Vec::new();
        v.push('N');
        v.push('a');
        v.push('N');
        assert(v@ =~= seq!['N', 'a', 'N']);
        return v;
    }
    if n == ZERO_BITS {
        let mut v: Vec<char> = Vec::new();
        v.push('0');
        assert(v@ =~= seq!['0']);
        return v;
    }
    if n == NEG_ZERO_BITS {
        let mut v: Vec<char> = Vec::new();
        v.push('-');
        v.push('0');
        assert(v@ =~= seq!['-', '0']);
        return v;
    }
    let mut p: usize = 1;
    while p < 17
        invariant
            1 <= p <= 17,
            shortest_sci(n, 1) == shortest_sci(n, p as int),
            n != POS_INF_BITS && n != NEG_INF_BITS && !is_nan_bits(n),
            n != ZERO_BITS && n != NEG_ZERO_BITS,
        decreases 17 - p,
    {
        let s = num_fmt_sci(n, p);
        let parsed = num_parse(&s);
        match parsed {
            Some(m) => {
                if m == n {
                    assert(shortest_sci(n, p as int) == fmt_sci_bits(n, p));
                    return sci_plain_vec(s);
                }
            },
            None => {},
        }
        assert(shortest_sci(n, p as int) == shortest_sci(n, p + 1));
        p = p + 1;
    }
    let s = num_fmt_sci(n, 17);
    assert(shortest_sci(n, 17) == fmt_sci_bits(n, 17));
    sci_plain_vec(s)
}

} // verus!
