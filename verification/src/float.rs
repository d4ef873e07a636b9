//! Decides, without floating-point arithmetic, whether a text parses as an
//! `f32` (`str::parse::<f32>`) whose value is greater than zero.

use vstd::prelude::*;
use crate::text::{ascii_lower_seq, ascii_lowercase, chars_eq, find_first, find_seq, lemma_find_from, sub_chars};

verus! {

/// `b` raised to the power `e`.
pub open spec fn pow_nat(b: nat, e: nat) -> nat
    decreases e,
{
    if e == 0 {
        1
    } else {
        b * pow_nat(b, (e - 1) as nat)
    }
}

/// 5^150: the smallest positive `f32` halved (2^-150), scaled by 10^150.
pub open spec fn half_min_scaled() -> nat {
    pow_nat(5, 150)
}

pub proof fn lemma_pow_add(b: nat, x: nat, y: nat)
    ensures
        pow_nat(b, x + y) == pow_nat(b, x) * pow_nat(b, y),
    decreases x,
{
    if x == 0 {
        assert(pow_nat(b, 0) == 1);
        assert(1 * pow_nat(b, y) == pow_nat(b, y));
    } else {
        lemma_pow_add(b, (x - 1) as nat, y);
        assert(((x + y) - 1) as nat == ((x - 1) as nat + y) as nat);
        assert(pow_nat(b, x + y) == b * pow_nat(b, (x - 1 + y) as nat));
        assert(pow_nat(b, x) == b * pow_nat(b, (x - 1) as nat));
        assert(b * (pow_nat(b, (x - 1) as nat) * pow_nat(b, y)) == (b * pow_nat(b, (x - 1) as nat)) * pow_nat(b, y))
            by (nonlinear_arith);
    }
}

proof fn lemma_half_min_value()
    ensures
        half_min_scaled() == 700649232162408535461864791644958065640130970938257885878534141944895541342930300743319094181060791015625nat,
{
    assert(pow_nat(5, 10) == 9765625nat) by {
        reveal_with_fuel(pow_nat, 11);
    }
    lemma_pow_add(5, 10, 10);
    assert(pow_nat(5, 20) == 95367431640625nat);
    lemma_pow_add(5, 20, 10);
    assert(pow_nat(5, 30) == 931322574615478515625nat);
    lemma_pow_add(5, 30, 10);
    assert(pow_nat(5, 40) == 9094947017729282379150390625nat);
    lemma_pow_add(5, 40, 10);
    assert(pow_nat(5, 50) == 88817841970012523233890533447265625nat);
    lemma_pow_add(5, 50, 10);
    assert(pow_nat(5, 60) == 867361737988403547205962240695953369140625nat);
    lemma_pow_add(5, 60, 10);
    assert(pow_nat(5, 70) == 8470329472543003390683225006796419620513916015625nat);
    lemma_pow_add(5, 70, 10);
    assert(pow_nat(5, 80) == 82718061255302767487140869206996285356581211090087890625nat);
    lemma_pow_add(5, 80, 10);
    assert(pow_nat(5, 90) == 807793566946316088741610050849573099185363389551639556884765625nat);
    lemma_pow_add(5, 90, 10);
    assert(pow_nat(5, 100) == 7888609052210118054117285652827862296732064351090230047702789306640625nat);
    lemma_pow_add(5, 100, 10);
    assert(pow_nat(5, 110) == 77037197775489434122239117703397092741524065928615527809597551822662353515625nat);
    lemma_pow_add(5, 110, 10);
    assert(pow_nat(5, 120) == 752316384526264005099991383822237233803945956334136013765601092018187046051025390625nat);
    lemma_pow_add(5, 120, 10);
    assert(pow_nat(5, 130) == 7346839692639296924804603357639035486366659729825547009429698164240107871592044830322265625nat);
    lemma_pow_add(5, 130, 10);
    assert(pow_nat(5, 140) == 71746481373430634031294954664443705921549411424077607513961896135157303433516062796115875244140625nat);
    lemma_pow_add(5, 140, 10);
    assert(pow_nat(5, 150) == 700649232162408535461864791644958065640130970938257885878534141944895541342930300743319094181060791015625nat);
}

/// Value of the first `k` decimal digits of `d`.
pub open spec fn dv(d: Seq<int>, k: int) -> int
    decreases k,
{
    if k <= 0 {
        0
    } else {
        dv(d, k - 1) * 10 + d[k - 1]
    }
}

/// Every element of `d` is a decimal digit.
pub open spec fn is_digit_seq(d: Seq<int>) -> bool {
    forall|i: int| 0 <= i < d.len() ==> 0 <= #[trigger] d[i] <= 9
}

/// The decimal digits of 5^150, most significant first.
pub open spec fn half_min_digits() -> Seq<int> {
    seq![7, 0, 0, 6, 4, 9, 2, 3, 2, 1, 6, 2, 4, 0, 8, 5, 3, 5, 4, 6, 1, 8, 6, 4, 7, 9, 1, 6, 4, 4, 9, 5, 8, 0, 6, 5, 6, 4, 0, 1, 3, 0, 9, 7, 0, 9, 3, 8, 2, 5, 7, 8, 8, 5, 8, 7, 8, 5, 3, 4, 1, 4, 1, 9, 4, 4, 8, 9, 5, 5, 4, 1, 3, 4, 2, 9, 3, 0, 3, 0, 0, 7, 4, 3, 3, 1, 9, 0, 9, 4, 1, 8, 1, 0, 6, 0, 7, 9, 1, 0, 1, 5, 6, 2, 5]
}

proof fn lemma_half_min_digits()
    ensures
        half_min_digits().len() == 105,
        is_digit_seq(half_min_digits()),
        half_min_digits()[0] == 7,
        dv(half_min_digits(), 105) == half_min_scaled(),
{
    let t = half_min_digits();
    lemma_half_min_value();
    assert(dv(t, 15) == 700649232162408) by {
        reveal_with_fuel(dv, 16);
    }
    assert(dv(t, 30) == 700649232162408535461864791644) by {
        reveal_with_fuel(dv, 16);
    }
    assert(dv(t, 45) == 700649232162408535461864791644958065640130970) by {
        reveal_with_fuel(dv, 16);
    }
    assert(dv(t, 60) == 700649232162408535461864791644958065640130970938257885878534) by {
        reveal_with_fuel(dv, 16);
    }
    assert(dv(t, 75) == 700649232162408535461864791644958065640130970938257885878534141944895541342) by {
        reveal_with_fuel(dv, 16);
    }
    assert(dv(t, 90) == 700649232162408535461864791644958065640130970938257885878534141944895541342930300743319094) by {
        reveal_with_fuel(dv, 16);
    }
    assert(dv(t, 105) == 700649232162408535461864791644958065640130970938257885878534141944895541342930300743319094181060791015625) by {
        reveal_with_fuel(dv, 16);
    }
}

/// 10 raised to the power `k`.
pub open spec fn pow10(k: int) -> int {
    pow_nat(10, k as nat) as int
}

proof fn lemma_pow10_add(a: int, b: int)
    requires
        a >= 0,
        b >= 0,
    ensures
        pow10(a + b) == pow10(a) * pow10(b),
{
    lemma_pow_add(10, a as nat, b as nat);
}

proof fn lemma_pow10_pos(k: int)
    requires
        k >= 0,
    ensures
        pow10(k) >= 1,
    decreases k,
{
    if k > 0 {
        lemma_pow10_pos(k - 1);
        assert(pow10(k) == 10 * pow10(k - 1));
    }
}

proof fn lemma_pow10_mono(a: int, b: int)
    requires
        0 <= a <= b,
    ensures
        pow10(a) <= pow10(b),
{
    lemma_pow10_add(a, b - a);
    lemma_pow10_pos(a);
    lemma_pow10_pos(b - a);
    assert(pow10(a) * pow10(b - a) >= pow10(a) * 1) by (nonlinear_arith)
        requires
            pow10(a) >= 1,
            pow10(b - a) >= 1,
    ;
}

proof fn lemma_dv_bound(d: Seq<int>, k: int)
    requires
        is_digit_seq(d),
        0 <= k <= d.len(),
    ensures
        0 <= dv(d, k) < pow10(k),
    decreases k,
{
    if k > 0 {
        lemma_dv_bound(d, k - 1);
        assert(pow10(k) == 10 * pow10(k - 1));
        assert(0 <= d[k - 1] <= 9);
    }
}

proof fn lemma_dv_lead(d: Seq<int>, k: int)
    requires
        is_digit_seq(d),
        1 <= k <= d.len(),
        d[0] >= 1,
    ensures
        dv(d, k) >= pow10(k - 1),
    decreases k,
{
    if k > 1 {
        lemma_dv_lead(d, k - 1);
        assert(pow10(k - 1) == 10 * pow10(k - 2));
        assert(0 <= d[k - 1] <= 9);
    } else {
        assert(dv(d, 0) == 0);
        assert(pow10(0) == 1);
    }
}

proof fn lemma_dv_prefix_eq(a: Seq<int>, b: Seq<int>, k: int)
    requires
        0 <= k,
        forall|i: int| 0 <= i < k ==> a[i] == b[i],
    ensures
        dv(a, k) == dv(b, k),
    decreases k,
{
    if k > 0 {
        lemma_dv_prefix_eq(a, b, k - 1);
    }
}

proof fn lemma_dv_split(d: Seq<int>, i: int, j: int)
    requires
        0 <= i <= j <= d.len(),
    ensures
        dv(d, j) == dv(d, i) * pow10(j - i) + dv(d.skip(i), j - i),
    decreases j,
{
    if j == i {
        assert(pow10(0) == 1);
    } else {
        lemma_dv_split(d, i, j - 1);
        assert(d.skip(i)[j - i - 1] == d[j - 1]);
        assert(dv(d.skip(i), j - i) == dv(d.skip(i), j - i - 1) * 10 + d[j - 1]);
        assert(pow10(j - i) == 10 * pow10(j - i - 1));
        let x = dv(d, i);
        let p = pow10(j - i - 1);
        let r = dv(d.skip(i), j - i - 1);
        assert((x * p + r) * 10 + d[j - 1] == x * (10 * p) + (r * 10 + d[j - 1])) by (nonlinear_arith);
    }
}

proof fn lemma_dv_zero_prefix(d: Seq<int>, z: int, k: int)
    requires
        0 <= z <= k <= d.len(),
        forall|i: int| 0 <= i < z ==> d[i] == 0,
    ensures
        dv(d, k) == dv(d.skip(z), k - z),
{
    lemma_dv_split(d, z, k);
    lemma_dv_prefix_eq(d, Seq::new(z as nat, |i: int| 0int), z);
    lemma_dv_all_zero(z);
}

proof fn lemma_dv_all_zero(n: int)
    requires
        n >= 0,
    ensures
        dv(Seq::new(n as nat, |i: int| 0int), n) == 0,
    decreases n,
{
    if n > 0 {
        lemma_dv_prefix_eq(Seq::new(n as nat, |i: int| 0int), Seq::new((n - 1) as nat, |i: int| 0int), n - 1);
        lemma_dv_all_zero(n - 1);
    }
}

/// A digit sequence followed by `m` zeros.
pub open spec fn pad_zeros(d: Seq<int>, m: int) -> Seq<int> {
    d + Seq::new(m as nat, |i: int| 0int)
}

proof fn lemma_dv_pad(d: Seq<int>, m: int)
    requires
        m >= 0,
    ensures
        dv(pad_zeros(d, m), d.len() + m) == dv(d, d.len() as int) * pow10(m),
{
    let p = pad_zeros(d, m);
    lemma_dv_split(p, d.len() as int, d.len() + m);
    lemma_dv_prefix_eq(p, d, d.len() as int);
    let z = Seq::new(m as nat, |i: int| 0int);
    assert(p.skip(d.len() as int) =~= z);
    lemma_dv_all_zero(m);
}

proof fn lemma_dv_lex(a: Seq<int>, b: Seq<int>, len: int, k: int)
    requires
        is_digit_seq(a),
        is_digit_seq(b),
        0 <= k < len <= a.len(),
        len <= b.len(),
        forall|i: int| 0 <= i < k ==> a[i] == b[i],
        a[k] > b[k],
    ensures
        dv(a, len) > dv(b, len),
{
    lemma_dv_split(a, k + 1, len);
    lemma_dv_split(b, k + 1, len);
    lemma_dv_prefix_eq(a, b, k);
    let r = len - k - 1;
    let pa = dv(a, k + 1);
    let pb = dv(b, k + 1);
    assert(pa >= pb + 1);
    assert(is_digit_seq(a.skip(k + 1)));
    assert(is_digit_seq(b.skip(k + 1)));
    lemma_dv_bound(a.skip(k + 1), r);
    lemma_dv_bound(b.skip(k + 1), r);
    lemma_pow10_pos(r);
    let p = pow10(r);
    let ra = dv(a.skip(k + 1), r);
    let rb = dv(b.skip(k + 1), r);
    assert(pa * p + ra > pb * p + rb) by (nonlinear_arith)
        requires
            pa >= pb + 1,
            p >= 1,
            0 <= ra,
            rb < p,
    ;
}

/// The decimal value `m × 10^e` exceeds 2^-150, so that it does not round
/// to zero as an `f32` (2^-150 lies halfway between zero and the smallest
/// positive `f32`, and such ties round to the even value, zero).
pub open spec fn exceeds_half_min(m: int, e: int) -> bool {
    if e + 150 >= 0 {
        m * pow10(e + 150) > half_min_scaled()
    } else {
        m > half_min_scaled() * pow10(-(e + 150))
    }
}

proof fn lemma_half_min_bounds()
    ensures
        pow10(104) <= half_min_scaled() < pow10(105),
{
    lemma_half_min_digits();
    lemma_dv_lead(half_min_digits(), 105);
    lemma_dv_bound(half_min_digits(), 105);
}

/// Where the leading digit of `m × 10^e` sits decides the comparison with
/// 2^-150, except when it sits in the same decade.
proof fn lemma_exceeds_by_magnitude(m: int, n: int, e: int)
    requires
        1 <= n,
        pow10(n - 1) <= m < pow10(n),
    ensures
        n - 1 + e > -46 ==> exceeds_half_min(m, e),
        n - 1 + e < -46 ==> !exceeds_half_min(m, e),
{
    lemma_half_min_bounds();
    let t = half_min_scaled() as int;
    let q = e + 150;
    if n - 1 + e > -46 {
        if q >= 0 {
            lemma_pow10_add(n - 1, q);
            lemma_pow10_mono(105, n - 1 + q);
            lemma_pow10_pos(q);
            assert(m * pow10(q) >= pow10(n - 1) * pow10(q)) by (nonlinear_arith)
                requires
                    m >= pow10(n - 1),
                    pow10(q) >= 1,
            ;
        } else {
            lemma_pow10_add(105, -q);
            lemma_pow10_mono(105 - q, n - 1);
            lemma_pow10_pos(-q);
            assert(t * pow10(-q) < pow10(105) * pow10(-q)) by (nonlinear_arith)
                requires
                    t < pow10(105),
                    pow10(-q) >= 1,
            ;
        }
    }
    if n - 1 + e < -46 {
        if q >= 0 {
            lemma_pow10_add(n, q);
            lemma_pow10_mono(n + q, 104);
            lemma_pow10_pos(q);
            assert(m * pow10(q) < pow10(n) * pow10(q)) by (nonlinear_arith)
                requires
                    m < pow10(n),
                    pow10(q) >= 1,
            ;
        } else {
            lemma_pow10_add(104, -q);
            lemma_pow10_mono(n, 104 - q);
            lemma_pow10_pos(-q);
            assert(pow10(104) * pow10(-q) <= t * pow10(-q)) by (nonlinear_arith)
                requires
                    pow10(104) <= t,
                    pow10(-q) >= 1,
            ;
        }
    }
}

/// The digits of 5^150 as bytes.
fn half_min_digit_bytes() -> (v: Vec<u8>)
    ensures
        v@.len() == 105,
        forall|i: int| 0 <= i < 105 ==> v@[i] as int == #[trigger] half_min_digits()[i],
{
    let v: Vec<u8> = vec![7, 0, 0, 6, 4, 9, 2, 3, 2, 1, 6, 2, 4, 0, 8, 5, 3, 5, 4, 6, 1, 8, 6, 4, 7, 9, 1, 6, 4, 4, 9, 5, 8, 0, 6, 5, 6, 4, 0, 1, 3, 0, 9, 7, 0, 9, 3, 8, 2, 5, 7, 8, 8, 5, 8, 7, 8, 5, 3, 4, 1, 4, 1, 9, 4, 4, 8, 9, 5, 5, 4, 1, 3, 4, 2, 9, 3, 0, 3, 0, 0, 7, 4, 3, 3, 1, 9, 0, 9, 4, 1, 8, 1, 0, 6, 0, 7, 9, 1, 0, 1, 5, 6, 2, 5];
    proof {
        lemma_half_min_digits();
        assert forall|i: int| 0 <= i < 105 implies v@[i] as int == #[trigger] half_min_digits()[i] by {
            assert(v@ =~= seq![7, 0, 0, 6, 4, 9, 2, 3, 2, 1, 6, 2, 4, 0, 8, 5, 3, 5, 4, 6, 1, 8, 6, 4, 7, 9, 1, 6, 4, 4, 9, 5, 8, 0, 6, 5, 6, 4, 0, 1, 3, 0, 9, 7, 0, 9, 3, 8, 2, 5, 7, 8, 8, 5, 8, 7, 8, 5, 3, 4, 1, 4, 1, 9, 4, 4, 8, 9, 5, 5, 4, 1, 3, 4, 2, 9, 3, 0, 3, 0, 0, 7, 4, 3, 3, 1, 9, 0, 9, 4, 1, 8, 1, 0, 6, 0, 7, 9, 1, 0, 1, 5, 6, 2, 5]);
        }
    }
    v
}

/// The digits of a byte sequence as integers.
pub open spec fn digit_ints(d: Seq<u8>) -> Seq<int> {
    d.map_values(|x: u8| x as int)
}

/// Does the decimal `digits × 10^(exp - frac_len)` exceed 2^-150?
/// `exp_clamped` is the exponent `exp` clamped to ±2^70.
fn decimal_exceeds_half_min(digits: &[u8], frac_len: usize, exp_clamped: i128, Ghost(exp): Ghost<int>) -> (r: bool)
    requires
        forall|i: int| 0 <= i < digits@.len() ==> #[trigger] digits@[i] <= 9,
        -0x4_0000_0000_0000_0000_0 <= exp_clamped <= 0x4_0000_0000_0000_0000_0,
        exp_clamped == exp || (exp > 0x4_0000_0000_0000_0000_0 && exp_clamped == 0x4_0000_0000_0000_0000_0)
            || (exp < -0x4_0000_0000_0000_0000_0 && exp_clamped == -0x4_0000_0000_0000_0000_0),
    ensures
        r == exceeds_half_min(dv(digit_ints(digits@), digits@.len() as int), exp - frac_len),
{
    let ghost d = digit_ints(digits@);
    let ghost e = exp - frac_len;
    let len = digits.len();
    assert(is_digit_seq(d));
    let mut z: usize = 0;
    while z < len && digits[z] == 0
        invariant
            z <= len == digits@.len(),
            d == digit_ints(digits@),
            forall|i: int| 0 <= i < z ==> d[i] == 0,
        decreases len - z,
    {
        z = z + 1;
    }
    proof {
        lemma_dv_zero_prefix(d, z as int, len as int);
    }
    if z == len {
        assert(dv(d.skip(len as int), 0) == 0);
        proof {
            if e + 150 >= 0 {
                assert(0 * pow10(e + 150) == 0);
            } else {
                lemma_half_min_bounds();
                lemma_pow10_pos(-(e + 150));
                assert(half_min_scaled() * pow10(-(e + 150)) >= 0) by (nonlinear_arith)
                    requires
                        pow10(-(e + 150)) >= 1,
                ;
            }
        }
        return false;
    }
    let n = len - z;
    let ghost dd = d.skip(z as int);
    let ghost m = dv(dd, n as int);
    proof {
        assert(is_digit_seq(dd));
        assert(dd[0] == d[z as int]);
        lemma_dv_lead(dd, n as int);
        lemma_dv_bound(dd, n as int);
        lemma_exceeds_by_magnitude(m, n as int, e);
    }
    let p: i128 = n as i128 - 1 + exp_clamped - frac_len as i128;
    assert(p > -46 <==> n - 1 + e > -46);
    assert(p < -46 <==> n - 1 + e < -46);
    if p > -46 {
        return true;
    }
    if p < -46 {
        return false;
    }
    let t = half_min_digit_bytes();
    let l: usize = if n > 105 { n } else { 105 };
    let ghost tt = half_min_digits();
    let ghost a = pad_zeros(dd, l - n);
    let ghost b = pad_zeros(tt, l - 105);
    proof {
        lemma_half_min_digits();
        lemma_dv_pad(dd, l - n);
        lemma_dv_pad(tt, l - 105);
        assert(is_digit_seq(a));
        assert(is_digit_seq(b));
        let q = e + 150;
        if q >= 0 {
            assert(l == 105);
            assert(pow10(0) == 1);
        } else {
            assert(l == n);
            assert(pow10(0) == 1);
        }
        assert(exceeds_half_min(m, e) == (dv(a, l as int) > dv(b, l as int)));
    }
    let mut k: usize = 0;
    while k < l
        invariant
            k <= l,
            l == a.len(),
            l == b.len(),
            n == len - z,
            len == digits@.len(),
            t@.len() == 105,
            forall|i: int| 0 <= i < 105 ==> t@[i] as int == #[trigger] tt[i],
            a == pad_zeros(dd, l - n),
            b == pad_zeros(tt, l - 105),
            dd == digit_ints(digits@).skip(z as int),
            tt == half_min_digits(),
            is_digit_seq(a),
            is_digit_seq(b),
            forall|i: int| 0 <= i < k ==> a[i] == b[i],
            exceeds_half_min(m, e) == (dv(a, l as int) > dv(b, l as int)),
            m == dv(digit_ints(digits@), len as int),
            e == exp - frac_len,
        decreases l - k,
    {
        let x: u8 = if k < n { digits[z + k] } else { 0 };
        let y: u8 = if k < 105 { t[k] } else { 0 };
        assert(x as int == a[k as int]);
        assert(y as int == b[k as int]);
        if x != y {
            proof {
                if x > y {
                    lemma_dv_lex(a, b, l as int, k as int);
                } else {
                    lemma_dv_lex(b, a, l as int, k as int);
                }
            }
            return x > y;
        }
        k = k + 1;
    }
    proof {
        lemma_dv_prefix_eq(a, b, l as int);
    }
    false
}

/// `c` is an ASCII decimal digit.
pub open spec fn is_digit_char(c: char) -> bool {
    '0' <= c && c <= '9'
}

/// Every character of `s` is an ASCII decimal digit.
pub open spec fn all_digit_chars(s: Seq<char>) -> bool {
    forall|i: int| 0 <= i < s.len() ==> is_digit_char(#[trigger] s[i])
}

/// The digits of a character sequence as integers.
pub open spec fn char_digit_ints(s: Seq<char>) -> Seq<int> {
    s.map_values(|c: char| c as int - 48)
}

/// The number written by the decimal digits `s`.
pub open spec fn decimal_value(s: Seq<char>) -> int {
    dv(char_digit_ints(s), s.len() as int)
}

/// Length of an optional leading `+` or `-`.
pub open spec fn sign_len(t: Seq<char>) -> int {
    if t.len() > 0 && (t[0] == '+' || t[0] == '-') {
        1
    } else {
        0
    }
}

/// The mantissa of a number: the text before its first `e`.
pub open spec fn mantissa_of(body: Seq<char>) -> Seq<char> {
    match find_seq(body, seq!['e']) {
        Some(i) => body.take(i),
        None => body,
    }
}

/// The exponent text of a number: the text after its first `e`.
pub open spec fn exponent_text_of(body: Seq<char>) -> Option<Seq<char>> {
    match find_seq(body, seq!['e']) {
        Some(i) => Some(body.skip(i + 1)),
        None => None,
    }
}

/// The integer digits of a mantissa: the text before its first `.`.
pub open spec fn int_digits(m: Seq<char>) -> Seq<char> {
    match find_seq(m, seq!['.']) {
        Some(i) => m.take(i),
        None => m,
    }
}

/// The fraction digits of a mantissa: the text after its first `.`.
pub open spec fn frac_digits(m: Seq<char>) -> Seq<char> {
    match find_seq(m, seq!['.']) {
        Some(i) => m.skip(i + 1),
        None => Seq::empty(),
    }
}

/// An exponent: an optional sign and at least one digit.
pub open spec fn valid_exponent(x: Seq<char>) -> bool {
    let digits = x.skip(sign_len(x));
    digits.len() >= 1 && all_digit_chars(digits)
}

/// The value of an exponent text.
pub open spec fn exponent_value(x: Seq<char>) -> int {
    let digits = x.skip(sign_len(x));
    if x.len() > 0 && x[0] == '-' {
        -decimal_value(digits)
    } else {
        decimal_value(digits)
    }
}

/// `body` (lowercase, sign removed) is a decimal number:
/// `( Digit+ | Digit+ '.' Digit* | Digit* '.' Digit+ ) ( 'e' Sign? Digit+ )?`.
pub open spec fn is_decimal_number(body: Seq<char>) -> bool {
    let m = mantissa_of(body);
    &&& all_digit_chars(int_digits(m))
    &&& all_digit_chars(frac_digits(m))
    &&& int_digits(m).len() + frac_digits(m).len() >= 1
    &&& match exponent_text_of(body) {
        Some(x) => valid_exponent(x),
        None => true,
    }
}

/// The decimal number `body` denotes a value above 2^-150.
pub open spec fn decimal_number_exceeds(body: Seq<char>) -> bool {
    let m = mantissa_of(body);
    let ip = int_digits(m);
    let fp = frac_digits(m);
    let x = match exponent_text_of(body) {
        Some(x) => exponent_value(x),
        None => 0,
    };
    exceeds_half_min(decimal_value(ip + fp), x - fp.len())
}

/// `s` parses as an `f32` (`str::parse::<f32>`, whose accepted syntax is,
/// ASCII case-insensitively, `Sign? ( 'inf' | 'infinity' | 'nan' | Number )`)
/// and the value is greater than zero: positive infinity, or a positive
/// decimal that does not round to zero.
pub open spec fn parses_positive_f32(s: Seq<char>) -> bool {
    let t = ascii_lower_seq(s);
    let negative = t.len() > 0 && t[0] == '-';
    let body = t.skip(sign_len(t));
    if body == seq!['i', 'n', 'f'] || body == seq!['i', 'n', 'f', 'i', 'n', 'i', 't', 'y'] {
        !negative
    } else if body == seq!['n', 'a', 'n'] {
        false
    } else {
        is_decimal_number(body) && !negative && decimal_number_exceeds(body)
    }
}

/// Are all characters of `s` ASCII digits?
fn all_digits_exec(s: &[char]) -> (b: bool)
    ensures
        b == all_digit_chars(s@),
{
    let mut i: usize = 0;
    while i < s.len()
        invariant
            i <= s@.len(),
            forall|k: int| 0 <= k < i ==> is_digit_char(#[trigger] s@[k]),
        decreases s@.len() - i,
    {
        if !('0' <= s[i] && s[i] <= '9') {
            return false;
        }
        i = i + 1;
    }
    true
}

/// The digit values of the ASCII digits `s`.
fn digit_bytes(s: &[char]) -> (v: Vec<u8>)
    requires
        all_digit_chars(s@),
    ensures
        digit_ints(v@) == char_digit_ints(s@),
        forall|i: int| 0 <= i < v@.len() ==> #[trigger] v@[i] <= 9,
{
    let mut v: Vec<u8> = Vec::new();
    let mut i: usize = 0;
    while i < s.len()
        invariant
            i <= s@.len(),
            all_digit_chars(s@),
            v@.len() == i,
            forall|k: int| 0 <= k < i ==> (#[trigger] v@[k]) as int == s@[k] as int - 48 && v@[k] <= 9,
        decreases s@.len() - i,
    {
        assert(is_digit_char(s@[i as int]));
        let d: u8 = (s[i] as u32 - 48) as u8;
        v.push(d);
        i = i + 1;
    }
    assert(digit_ints(v@) =~= char_digit_ints(s@));
    v
}

/// The value of the ASCII digits `s`, clamped to 2^70.
fn clamped_decimal(s: &[char]) -> (r: u128)
    requires
        all_digit_chars(s@),
    ensures
        decimal_value(s@) >= 0x4_0000_0000_0000_0000_0 ==> r == 0x4_0000_0000_0000_0000_0,
        decimal_value(s@) < 0x4_0000_0000_0000_0000_0 ==> r == decimal_value(s@),
{
    let ghost d = char_digit_ints(s@);
    let mut val: u128 = 0;
    let mut i: usize = 0;
    while i < s.len()
        invariant
            i <= s@.len(),
            all_digit_chars(s@),
            d == char_digit_ints(s@),
            dv(d, i as int) >= 0,
            dv(d, i as int) >= 0x4_0000_0000_0000_0000_0 ==> val == 0x4_0000_0000_0000_0000_0,
            dv(d, i as int) < 0x4_0000_0000_0000_0000_0 ==> val == dv(d, i as int),
        decreases s@.len() - i,
    {
        assert(is_digit_char(s@[i as int]));
        let digit: u128 = (s[i] as u32 - 48) as u128;
        assert(digit as int == d[i as int]);
        if val < 0x4_0000_0000_0000_0000_0 {
            let next = val * 10 + digit;
            val = if next >= 0x4_0000_0000_0000_0000_0 { 0x4_0000_0000_0000_0000_0 } else { next };
        }
        i = i + 1;
    }
    val
}

/// The exponent `x` clamped to ±2^70, when `x` is a valid exponent.
fn clamped_exponent(x: &[char]) -> (r: Option<i128>)
    ensures
        r is Some == valid_exponent(x@),
        r matches Some(ec) ==> {
            let exp = exponent_value(x@);
            &&& -0x4_0000_0000_0000_0000_0 <= ec <= 0x4_0000_0000_0000_0000_0
            &&& (ec == exp || (exp > 0x4_0000_0000_0000_0000_0 && ec == 0x4_0000_0000_0000_0000_0) || (exp
                < -0x4_0000_0000_0000_0000_0 && ec == -0x4_0000_0000_0000_0000_0))
        },
{
    let xl = x.len();
    let xs: usize = if xl > 0 && (x[0] == '+' || x[0] == '-') { 1 } else { 0 };
    let xd = sub_chars(x, xs, xl);
    assert(xd@ =~= x@.skip(sign_len(x@)));
    if xd.len() == 0 || !all_digits_exec(xd.as_slice()) {
        return None;
    }
    let mag = clamped_decimal(xd.as_slice());
    proof {
        lemma_dv_nonneg(xd@);
    }
    if xl > 0 && x[0] == '-' {
        Some(-(mag as i128))
    } else {
        Some(mag as i128)
    }
}

/// `a` followed by `b`.
fn concat_chars(a: &[char], b: &[char]) -> (r: Vec<char>)
    ensures
        r@ == a@ + b@,
{
    let mut all: Vec<char> = Vec::new();
    let mut k: usize = 0;
    while k < a.len()
        invariant
            k <= a@.len(),
            all@ == a@.take(k as int),
        decreases a@.len() - k,
    {
        all.push(a[k]);
        k = k + 1;
        assert(all@ =~= a@.take(k as int));
    }
    let mut k: usize = 0;
    while k < b.len()
        invariant
            k <= b@.len(),
            all@ == a@.take(a@.len() as int) + b@.take(k as int),
        decreases b@.len() - k,
    {
        all.push(b[k]);
        k = k + 1;
        assert(all@ =~= a@.take(a@.len() as int) + b@.take(k as int));
    }
    assert(a@.take(a@.len() as int) =~= a@);
    assert(b@.take(b@.len() as int) =~= b@);
    all
}

/// For a number text `body` (lowercase, sign removed): whether it is a
/// decimal number, and if so whether its value exceeds 2^-150.
fn decimal_number_check(body: &[char]) -> (r: Option<bool>)
    ensures
        r is Some == is_decimal_number(body@),
        r matches Some(b) ==> b == decimal_number_exceeds(body@),
{
    let e_pat: Vec<char> = vec!['e'];
    let dot_pat: Vec<char> = vec!['.'];
    assert(e_pat@ =~= seq!['e']);
    assert(dot_pat@ =~= seq!['.']);
    let epos = find_first(body, e_pat.as_slice());
    proof {
        lemma_find_from(body@, seq!['e'], 0);
    }
    let blen = body.len();
    let mantissa = match epos {
        Some(i) => sub_chars(body, 0, i),
        None => sub_chars(body, 0, blen),
    };
    assert(mantissa@ =~= mantissa_of(body@));
    let dpos = find_first(mantissa.as_slice(), dot_pat.as_slice());
    proof {
        lemma_find_from(mantissa@, seq!['.'], 0);
    }
    let mlen = mantissa.len();
    let ip = match dpos {
        Some(i) => sub_chars(mantissa.as_slice(), 0, i),
        None => sub_chars(mantissa.as_slice(), 0, mlen),
    };
    let fp = match dpos {
        Some(i) => sub_chars(mantissa.as_slice(), i + 1, mlen),
        None => Vec::new(),
    };
    assert(ip@ =~= int_digits(mantissa@));
    assert(fp@ =~= frac_digits(mantissa@));
    if !all_digits_exec(ip.as_slice()) || !all_digits_exec(fp.as_slice()) {
        return None;
    }
    if ip.len() == 0 && fp.len() == 0 {
        return None;
    }
    let (exp_clamped, exp) = match epos {
        Some(i) => {
            let x = sub_chars(body, i + 1, blen);
            assert(exponent_text_of(body@) == Some(x@));
            match clamped_exponent(x.as_slice()) {
                None => return None,
                Some(ec) => (ec, Ghost(exponent_value(x@))),
            }
        },
        None => (0i128, Ghost(0int)),
    };
    let all = concat_chars(ip.as_slice(), fp.as_slice());
    assert(all_digit_chars(all@)) by {
        assert forall|i: int| 0 <= i < all@.len() implies is_digit_char(#[trigger] all@[i]) by {
            if i < ip@.len() {
                assert(all@[i] == ip@[i]);
            } else {
                assert(all@[i] == fp@[i - ip@.len()]);
            }
        }
    }
    let digits = digit_bytes(all.as_slice());
    assert(digits@.len() == all@.len()) by {
        assert(digit_ints(digits@).len() == char_digit_ints(all@).len());
    }
    assert(dv(digit_ints(digits@), digits@.len() as int) == decimal_value(ip@ + fp@));
    assert(exp@ == match exponent_text_of(body@) {
        Some(x) => exponent_value(x),
        None => 0,
    });
    Some(decimal_exceeds_half_min(digits.as_slice(), fp.len(), exp_clamped, exp))
}

/// Does the text `s` parse as an `f32` (`str::parse::<f32>`) with a value
/// greater than zero?
pub fn parses_as_positive_f32(s: &[char]) -> (b: bool)
    ensures
        b == parses_positive_f32(s@),
{
    let t = ascii_lowercase(s);
    let tl = t.len();
    let negative = tl > 0 && t[0] == '-';
    let sl: usize = if tl > 0 && (t[0] == '+' || t[0] == '-') { 1 } else { 0 };
    let body = sub_chars(t.as_slice(), sl, tl);
    assert(body@ == t@.skip(sl as int));
    let inf: Vec<char> = vec!['i', 'n', 'f'];
    let infinity: Vec<char> = vec!['i', 'n', 'f', 'i', 'n', 'i', 't', 'y'];
    let nan: Vec<char> = vec!['n', 'a', 'n'];
    if chars_eq(body.as_slice(), inf.as_slice()) || chars_eq(body.as_slice(), infinity.as_slice()) {
        return !negative;
    }
    if chars_eq(body.as_slice(), nan.as_slice()) {
        return false;
    }
    match decimal_number_check(body.as_slice()) {
        None => false,
        Some(exceeds) => !negative && exceeds,
    }
}

proof fn lemma_dv_nonneg(s: Seq<char>)
    requires
        all_digit_chars(s),
    ensures
        decimal_value(s) >= 0,
{
    let d = char_digit_ints(s);
    assert(is_digit_seq(d)) by {
        assert forall|i: int| 0 <= i < d.len() implies 0 <= #[trigger] d[i] <= 9 by {
            assert(is_digit_char(s[i]));
        }
    }
    lemma_dv_bound(d, s.len() as int);
}

/// `c` may appear in the text of a number: a digit, a point, an exponent
/// mark, a sign, or a letter of `inf`, `infinity` or `nan`.
pub open spec fn is_number_char(c: char) -> bool {
    is_digit_char(c) || c == '.' || c == 'e' || c == '+' || c == '-' || ('a' <= c && c <= 'z')
}

proof fn lemma_digits_are_number_chars(s: Seq<char>)
    requires
        all_digit_chars(s),
    ensures
        forall|i: int| 0 <= i < s.len() ==> is_number_char(#[trigger] s[i]),
{
    assert forall|i: int| 0 <= i < s.len() implies is_number_char(#[trigger] s[i]) by {
        assert(is_digit_char(s[i]));
    }
}

proof fn lemma_split_number_chars(s: Seq<char>, sep: char, head: Seq<char>, tail: Seq<char>)
    requires
        find_seq(s, seq![sep]) matches Some(k) ==> head == s.take(k) && tail == s.skip(k + 1),
        find_seq(s, seq![sep]) is None ==> head == s,
        is_number_char(sep),
        forall|i: int| 0 <= i < head.len() ==> is_number_char(#[trigger] head[i]),
        find_seq(s, seq![sep]) is Some ==> forall|i: int| 0 <= i < tail.len() ==> is_number_char(#[trigger] tail[i]),
    ensures
        forall|i: int| 0 <= i < s.len() ==> is_number_char(#[trigger] s[i]),
{
    lemma_find_from(s, seq![sep], 0);
    if let Some(k) = find_seq(s, seq![sep]) {
        assert(s.subrange(k, k + 1) == seq![sep]);
        assert forall|i: int| 0 <= i < s.len() implies is_number_char(#[trigger] s[i]) by {
            if i < k {
                assert(s[i] == head[i]);
            } else if i == k {
                assert(s[i] == s.subrange(k, k + 1)[0]);
            } else {
                assert(s[i] == tail[i - k - 1]);
            }
        }
    }
}

/// The text of a positive number is made of number characters only; in
/// particular it holds no `@`.
pub proof fn lemma_positive_number_chars(s: Seq<char>)
    requires
        parses_positive_f32(s),
    ensures
        forall|i: int| 0 <= i < s.len() ==> s[i] != '@',
{
    let t = ascii_lower_seq(s);
    let sl = sign_len(t);
    let body = t.skip(sl);
    if body == seq!['i', 'n', 'f'] || body == seq!['i', 'n', 'f', 'i', 'n', 'i', 't', 'y'] {
        assert forall|i: int| 0 <= i < body.len() implies is_number_char(#[trigger] body[i]) by {}
    } else {
        let m = mantissa_of(body);
        lemma_digits_are_number_chars(int_digits(m));
        lemma_digits_are_number_chars(frac_digits(m));
        lemma_split_number_chars(m, '.', int_digits(m), frac_digits(m));
        if let Some(x) = exponent_text_of(body) {
            let xs = sign_len(x);
            let digits = x.skip(xs);
            lemma_digits_are_number_chars(digits);
            assert forall|i: int| 0 <= i < x.len() implies is_number_char(#[trigger] x[i]) by {
                if i >= xs {
                    assert(x[i] == digits[i - xs]);
                }
            }
        }
        lemma_split_number_chars(body, 'e', m, match exponent_text_of(body) {
            Some(x) => x,
            None => Seq::empty(),
        });
    }
    assert forall|i: int| 0 <= i < s.len() implies s[i] != '@' by {
        assert(t[i] == crate::text::ascii_lower(s[i]));
        if i >= sl {
            assert(t[i] == body[i - sl]);
        }
    }
}

} // verus!
