use vstd::prelude::*;

verus! {

/// The largest unit index: units run from B/s (0) to YiB/s (8).
pub const MAX_UNIT: usize = 8;

/// 1024 raised to the power `k`.
pub open spec fn pow1024(k: nat) -> nat
    decreases k,
{
    if k == 0 {
        1
    } else {
        1024 * pow1024((k - 1) as nat)
    }
}

/// The rate `bytes / seconds`, scaled into a unit: the magnitude shown is
/// `bytes / divisor`, in the unit of index `unit`, where
/// `divisor == seconds * 1024^unit`.
pub struct ReadableSpeed {
    pub bytes: u64,
    pub divisor: u128,
    pub unit: usize,
}

/// `r` is the rate `bytes / seconds` in the unit that base-1024 scaling picks:
/// the largest `k <= 8` with `1024^k <= bytes / seconds`, or 0 when the rate
/// is below 1024.
pub open spec fn is_speed_of(r: ReadableSpeed, bytes: nat, seconds: nat) -> bool {
    &&& r.bytes == bytes
    &&& r.unit <= MAX_UNIT
    &&& r.divisor == seconds * pow1024(r.unit as nat)
    &&& (r.unit == 0 || seconds * pow1024(r.unit as nat) <= bytes)
    &&& (r.unit == MAX_UNIT || bytes < seconds * pow1024(r.unit as nat + 1))
}

impl ReadableSpeed {
    /// Scales the rate of `bytes` moved over `seconds` seconds.
    pub fn from_bytes(bytes: u64, seconds: u64) -> (r: ReadableSpeed)
        requires
            seconds > 0,
        ensures
            is_speed_of(r, bytes as nat, seconds as nat),
            0 < r.divisor <= u64::MAX,
    {
        let mut unit: usize = 0;
        let mut divisor: u128 = seconds as u128;
        assert(pow1024(0) == 1);
        while unit < MAX_UNIT && divisor * 1024 <= bytes as u128
            invariant
                unit <= MAX_UNIT,
                divisor == seconds * pow1024(unit as nat),
                unit == 0 || divisor <= bytes,
                divisor <= u64::MAX,
            decreases MAX_UNIT - unit,
        {
            proof {
                lemma_pow1024_step(seconds as nat, unit as nat);
            }
            divisor = divisor * 1024;
            unit = unit + 1;
        }
        proof {
            lemma_pow1024_step(seconds as nat, unit as nat);
            lemma_pow1024_positive(unit as nat);
            assert(seconds * pow1024(unit as nat) > 0) by (nonlinear_arith)
                requires seconds > 0, pow1024(unit as nat) > 0;
        }
        ReadableSpeed { bytes, divisor, unit }
    }
}

/// The magnitude `bytes / divisor` in hundredths, rounded to nearest
/// (halves round up).
pub open spec fn rounded_hundredths(bytes: nat, divisor: nat) -> nat
    recommends
        divisor > 0,
{
    (200 * bytes + divisor) / (2 * divisor)
}

/// The ASCII code of the decimal digit `d`.
pub open spec fn digit(d: nat) -> u8 {
    (48 + d) as u8
}

/// The decimal notation of `n`, most significant digit first.
pub open spec fn decimal(n: nat) -> Seq<u8>
    decreases n,
{
    if n < 10 {
        seq![digit(n)]
    } else {
        decimal(n / 10).push(digit(n % 10))
    }
}

/// The letter that precedes "iB/s" in the label of unit `k` (1 through 8).
pub open spec fn unit_letter(k: nat) -> u8 {
    if k == 1 {
        75u8
    } else if k == 2 {
        77u8
    } else if k == 3 {
        71u8
    } else if k == 4 {
        84u8
    } else if k == 5 {
        80u8
    } else if k == 6 {
        69u8
    } else if k == 7 {
        90u8
    } else {
        89u8
    }
}

/// The label of unit `k`: "B/s", "KiB/s", "MiB/s", "GiB/s", "TiB/s",
/// "PiB/s", "EiB/s", "ZiB/s" or "YiB/s", as ASCII.
pub open spec fn unit_label(k: nat) -> Seq<u8> {
    if k == 0 {
        seq![66u8, 47u8, 115u8]
    } else {
        seq![unit_letter(k), 105u8, 66u8, 47u8, 115u8]
    }
}

/// The status line for a magnitude of `h` hundredths in unit `k`:
/// the magnitude with two decimals, a space, the label, a newline.
pub open spec fn status_text(h: nat, k: nat) -> Seq<u8> {
    decimal(h / 100) + seq![46u8, digit((h % 100) / 10), digit(h % 10), 32u8] + unit_label(k)
        + seq![10u8]
}

/// The status line that shows the speed `s`.
pub open spec fn line_of(s: ReadableSpeed) -> Seq<u8>
    recommends
        s.divisor > 0,
{
    status_text(rounded_hundredths(s.bytes as nat, s.divisor as nat), s.unit as nat)
}

fn push_decimal(out: &mut Vec<u8>, n: u128)
    ensures
        final(out)@ == old(out)@ + decimal(n as nat),
    decreases n,
{
    if n >= 10 {
        push_decimal(out, n / 10);
    }
    out.push((48 + n % 10) as u8);
    proof {
        assert(final(out)@ == old(out)@ + decimal(n as nat));
    }
}

fn unit_letter_of(k: usize) -> (r: u8)
    requires
        1 <= k <= MAX_UNIT,
    ensures
        r == unit_letter(k as nat),
{
    if k == 1 {
        75u8
    } else if k == 2 {
        77u8
    } else if k == 3 {
        71u8
    } else if k == 4 {
        84u8
    } else if k == 5 {
        80u8
    } else if k == 6 {
        69u8
    } else if k == 7 {
        90u8
    } else {
        89u8
    }
}

impl ReadableSpeed {
    /// The magnitude in hundredths, rounded to nearest.
    pub fn hundredths(&self) -> (r: u128)
        requires
            0 < self.divisor <= u64::MAX,
        ensures
            r == rounded_hundredths(self.bytes as nat, self.divisor as nat),
    {
        (200 * self.bytes as u128 + self.divisor) / (2 * self.divisor)
    }

    /// The unit's label, as ASCII.
    pub fn title(&self) -> (r: Vec<u8>)
        requires
            self.unit <= MAX_UNIT,
        ensures
            r@ == unit_label(self.unit as nat),
    {
        let mut r: Vec<u8> = Vec::new();
        if self.unit > 0 {
            r.push(unit_letter_of(self.unit));
            r.push(105u8);
        }
        r.push(66u8);
        r.push(47u8);
        r.push(115u8);
        assert(r@ =~= unit_label(self.unit as nat));
        r
    }

    /// The status line: the magnitude to two decimals, a space, the unit's
    /// label and a newline, as in "3.42 MiB/s\n".
    pub fn status_line(&self) -> (r: Vec<u8>)
        requires
            0 < self.divisor <= u64::MAX,
            self.unit <= MAX_UNIT,
        ensures
            r@ == line_of(*self),
    {
        let h = self.hundredths();
        let mut r: Vec<u8> = Vec::new();
        push_decimal(&mut r, h / 100);
        r.push(46u8);
        r.push((48 + (h % 100) / 10) as u8);
        r.push((48 + h % 10) as u8);
        r.push(32u8);
        let title = self.title();
        let mut i: usize = 0;
        while i < title.len()
            invariant
                0 <= i <= title@.len(),
                r@ == decimal(h as nat / 100) + seq![46u8, digit((h as nat % 100) / 10), digit(h as nat % 10), 32u8]
                    + title@.subrange(0, i as int),
            decreases title@.len() - i,
        {
            r.push(title[i]);
            i = i + 1;
            assert(title@.subrange(0, i as int) =~= title@.subrange(0, i - 1).push(title@[i - 1]));
        }
        r.push(10u8);
        assert(title@.subrange(0, title@.len() as int) =~= title@);
        assert(r@ =~= status_text(h as nat, self.unit as nat));
        r
    }
}

/// The magnitude scaled back by its unit is the rate: `bytes / divisor`
/// times `1024^unit` equals `bytes / seconds` (cross-multiplied below), and
/// the magnitude is at least 1 above B/s and below 1024 under YiB/s.
pub proof fn lemma_magnitude_scales_to_rate(r: ReadableSpeed, bytes: nat, seconds: nat)
    requires
        seconds > 0,
        is_speed_of(r, bytes, seconds),
    ensures
        r.bytes * pow1024(r.unit as nat) * seconds == bytes * r.divisor,
        r.unit > 0 ==> r.divisor <= r.bytes,
        r.unit < MAX_UNIT ==> r.bytes < 1024 * r.divisor,
{
    let p = pow1024(r.unit as nat);
    assert(bytes * p * seconds == bytes * (seconds * p)) by (nonlinear_arith);
    lemma_pow1024_step(seconds, r.unit as nat);
}

proof fn lemma_pow1024_positive(k: nat)
    ensures
        pow1024(k) > 0,
    decreases k,
{
    if k > 0 {
        lemma_pow1024_positive((k - 1) as nat);
    }
}

proof fn lemma_pow1024_step(s: nat, k: nat)
    ensures
        s * pow1024(k + 1) == s * pow1024(k) * 1024,
{
    assert(pow1024(k + 1) == 1024 * pow1024(k));
    assert(s * (1024 * pow1024(k)) == s * pow1024(k) * 1024) by (nonlinear_arith);
}

} // verus!
