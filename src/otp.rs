//! HOTP and TOTP code generation.
use vstd::prelude::*;
use crate::base32::{base32_decode, decode_base32, upper_of};
use crate::error::OtpError;
use crate::hmac::{hmac_sha1, mac};
use crate::sha1::be64;

verus! {

/// Selects whether codes come from an explicit counter or from the clock.
#[derive(Debug, Clone, Copy, PartialEq, Eq, Structural)]
pub enum OtpType {
    /// Time-based: the counter is the current Unix time divided by the period.
    Totp,
    /// Counter-based: the caller supplies the counter.
    Hotp,
}

/// A code generator: decoded secret, digit count, time step and kind.
pub struct Otp {
    secret: Vec<u8>,
    digits: u32,
    period: u64,
    otp_type: OtpType,
}

pub open spec fn pow10(n: nat) -> nat
    decreases n,
{
    if n == 0 {
        1
    } else {
        10 * pow10((n - 1) as nat)
    }
}

pub open spec fn digit_char(d: nat) -> char {
    ((d + 48) as u8) as char
}

/// The last `w` decimal digits of `n`, most significant first.
pub open spec fn padded_decimal(n: nat, w: nat) -> Seq<char>
    decreases w,
{
    if w == 0 {
        seq![]
    } else {
        padded_decimal(n / 10, (w - 1) as nat).push(digit_char(n % 10))
    }
}

/// Dynamic truncation: four bytes at the offset named by the low nibble
/// of byte 19, top bit cleared.
pub open spec fn truncate(m: Seq<u8>) -> u32 {
    let off = (m[19] & 0x0fu8) as int;
    (((m[off] & 0x7fu8) as u32) << 24u32) | ((m[off + 1] as u32) << 16u32) | ((m[off + 2] as u32)
        << 8u32) | (m[off + 3] as u32)
}

/// The numeric HOTP value for `counter`.
pub open spec fn hotp_value(key: Seq<u8>, digits: nat, counter: u64) -> nat {
    (truncate(mac(key, be64(counter))) as nat) % pow10(digits)
}

/// The HOTP code for `counter`: `digits` decimal characters, zero-padded.
pub open spec fn hotp_code(key: Seq<u8>, digits: nat, counter: u64) -> Seq<char> {
    padded_decimal(hotp_value(key, digits, counter), digits)
}

/// The time-step counter for a Unix time.
pub open spec fn time_counter(unix_secs: u64, period: u64) -> u64 {
    (unix_secs / period) as u64
}

/// What `code_at` returns for the generator's fields and a Unix time.
pub open spec fn code_at_result(
    key: Seq<u8>,
    digits: nat,
    period: u64,
    kind: OtpType,
    unix_secs: u64,
) -> Result<Seq<char>, OtpError> {
    if kind == OtpType::Hotp {
        Err(OtpError::MissingCounterForHotp)
    } else if key.len() == 0 {
        Err(OtpError::InvalidSecretEncoding)
    } else {
        Ok(hotp_code(key, digits, time_counter(unix_secs, period)))
    }
}

pub open spec fn view_result(r: Result<String, OtpError>) -> Result<Seq<char>, OtpError> {
    match r {
        Ok(s) => Ok(s@),
        Err(e) => Err(e),
    }
}

/// Relies on `SystemTime::now` and `duration_since(UNIX_EPOCH)`: whole
/// seconds since the epoch, `None` where the clock reads earlier.
#[verifier::external_body]
fn unix_time_secs() -> (r: Option<u64>) {
    std::time::SystemTime::now().duration_since(std::time::UNIX_EPOCH).ok().map(|d| d.as_secs())
}

fn digit_str(d: u32) -> (r: &'static str)
    requires
        d < 10,
    ensures
        r@ == seq![digit_char(d as nat)],
{
    let r = if d == 0 {
        proof { reveal_strlit("0"); }
        "0"
    } else if d == 1 {
        proof { reveal_strlit("1"); }
        "1"
    } else if d == 2 {
        proof { reveal_strlit("2"); }
        "2"
    } else if d == 3 {
        proof { reveal_strlit("3"); }
        "3"
    } else if d == 4 {
        proof { reveal_strlit("4"); }
        "4"
    } else if d == 5 {
        proof { reveal_strlit("5"); }
        "5"
    } else if d == 6 {
        proof { reveal_strlit("6"); }
        "6"
    } else if d == 7 {
        proof { reveal_strlit("7"); }
        "7"
    } else if d == 8 {
        proof { reveal_strlit("8"); }
        "8"
    } else {
        proof { reveal_strlit("9"); }
        "9"
    };
    assert(r@ =~= seq![digit_char(d as nat)]);
    r
}

proof fn lemma_pow10_step(n: nat)
    ensures
        pow10(n + 1) == 10 * pow10(n),
        pow10(n) >= 1,
    decreases n,
{
    if n > 0 {
        lemma_pow10_step((n - 1) as nat);
    }
}

proof fn lemma_div_div(x: nat, p: nat)
    requires
        p >= 1,
    ensures
        x / (10 * p) == (x / p) / 10,
{
    vstd::arithmetic::div_mod::lemma_div_denominator(x as int, p as int, 10);
    assert(p * 10 == 10 * p) by (nonlinear_arith);
}

/// `n` as exactly `w` decimal digits, zero-padded on the left.
pub fn format_padded(n: u32, w: u32) -> (r: String)
    requires
        w <= 9,
    ensures
        r@ == padded_decimal(n as nat, w as nat),
{
    let mut pows: Vec<u32> = Vec::new();
    let mut p: u32 = 1;
    let mut i: u32 = 0;
    while i < w
        invariant
            i <= w <= 9,
            p == pow10(i as nat),
            pows@.len() == i,
            forall|j: int| 0 <= j < i ==> pows@[j] == pow10(j as nat),
        decreases w - i,
    {
        proof {
            lemma_pow10_step(i as nat);
            lemma_pow10_le_8(i as nat);
        }
        pows.push(p);
        p = p * 10;
        i += 1;
    }
    let mut out = String::new();
    proof {
        lemma_padded_decimal_empty(n as nat / pow10(w as nat));
    }
    let mut k: u32 = w;
    while k > 0
        invariant
            k <= w <= 9,
            pows@.len() == w,
            forall|j: int| 0 <= j < w ==> pows@[j] == pow10(j as nat),
            out@ == padded_decimal(n as nat / pow10(k as nat), (w - k) as nat),
        decreases k,
    {
        proof {
            lemma_pow10_step((k - 1) as nat);
            lemma_div_div(n as nat, pow10((k - 1) as nat));
        }
        let q = n / pows[k as usize - 1];
        out.append(digit_str(q % 10));
        k -= 1;
    }
    assert(pow10(0) == 1);
    assert(n as nat / pow10(0) == n as nat);
    out
}

proof fn lemma_padded_decimal_empty(x: nat)
    ensures
        padded_decimal(x, 0) == Seq::<char>::empty(),
{
}

/// A padded decimal has exactly `w` characters, each an ASCII digit.
pub proof fn lemma_padded_decimal_shape(n: nat, w: nat)
    ensures
        padded_decimal(n, w).len() == w,
        forall|i: int| 0 <= i < w ==> '0' <= #[trigger] padded_decimal(n, w)[i] <= '9',
    decreases w,
{
    if w > 0 {
        lemma_padded_decimal_shape(n / 10, (w - 1) as nat);
    }
}

proof fn lemma_pow10_le_8(i: nat)
    requires
        i <= 8,
    ensures
        pow10(i) <= 100_000_000,
{
    reveal_with_fuel(pow10, 9);
}

fn dynamic_truncate(m: &Vec<u8>) -> (r: u32)
    requires
        m@.len() == 20,
    ensures
        r == truncate(m@),
{
    let last = m[19];
    let offset = (last & 0xf) as usize;
    assert(last & 0xf < 16) by (bit_vector);
    ((m[offset] & 0x7f) as u32) << 24 | (m[offset + 1] as u32) << 16 | (m[offset + 2] as u32) << 8
        | (m[offset + 3] as u32)
}

impl Otp {
    /// The decoded secret.
    pub closed spec fn key(&self) -> Seq<u8> {
        self.secret@
    }

    pub closed spec fn digit_count(&self) -> nat {
        self.digits as nat
    }

    pub closed spec fn step(&self) -> u64 {
        self.period
    }

    pub closed spec fn kind(&self) -> OtpType {
        self.otp_type
    }

    /// Between one and nine digits, and a positive time step.
    pub open spec fn wf(&self) -> bool {
        1 <= self.digit_count() <= 9 && self.step() > 0
    }

    /// A generator for the base-32 `secret`.
    pub fn new(secret: &str, digits: u32, period: u64, otp_type: OtpType) -> (r: Self)
        requires
            1 <= digits <= 9,
            period > 0,
        ensures
            r.wf(),
            r.key() == base32_decode(upper_of(secret@)),
            r.digit_count() == digits,
            r.step() == period,
            r.kind() == otp_type,
    {
        let secret = Self::decode_base32(secret);
        Otp { secret, digits, period, otp_type }
    }

    /// A time-based generator with six digits and a 30-second step.
    pub fn new_totp(secret: &str) -> (r: Self)
        ensures
            r.wf(),
            r.key() == base32_decode(upper_of(secret@)),
            r.digit_count() == 6,
            r.step() == 30,
            r.kind() == OtpType::Totp,
    {
        Self::new(secret, 6, 30, OtpType::Totp)
    }

    /// The base-32 decoding of `input`, case-insensitive.
    pub fn decode_base32(input: &str) -> (r: Vec<u8>)
        ensures
            r@ == base32_decode(upper_of(input@)),
    {
        decode_base32(input)
    }

    /// The MAC of `data` under this generator's secret.
    pub fn hmac_sha1(&self, data: &[u8]) -> (r: Vec<u8>)
        ensures
            r@ == mac(self.key(), data@),
            r@.len() == 20,
    {
        hmac_sha1(self.secret.as_slice(), data)
    }

    /// The HOTP code for `counter`.
    pub fn generate_hotp(&self, counter: u64) -> (r: String)
        requires
            self.wf(),
        ensures
            r@ == hotp_code(self.key(), self.digit_count(), counter),
            r@.len() == self.digit_count(),
    {
        let msg: [u8; 8] = [
            (counter >> 56) as u8,
            (counter >> 48) as u8,
            (counter >> 40) as u8,
            (counter >> 32) as u8,
            (counter >> 24) as u8,
            (counter >> 16) as u8,
            (counter >> 8) as u8,
            counter as u8,
        ];
        let m = self.hmac_sha1(msg.as_slice());
        assert(msg@ =~= be64(counter));
        let binary = dynamic_truncate(&m);
        let mut modulo: u32 = 1;
        let mut i: u32 = 0;
        while i < self.digits
            invariant
                self.wf(),
                i <= self.digits,
                modulo == pow10(i as nat),
            decreases self.digits - i,
        {
            proof {
                lemma_pow10_step(i as nat);
                lemma_pow10_le_8(i as nat);
            }
            modulo = modulo * 10;
            i += 1;
        }
        proof {
            lemma_pow10_step(self.digits as nat);
        }
        proof {
            lemma_padded_decimal_shape((binary % modulo) as nat, self.digits as nat);
        }
        format_padded(binary % modulo, self.digits)
    }

    /// The code for the Unix time `unix_secs`.
    pub fn code_at(&self, unix_secs: u64) -> (r: Result<String, OtpError>)
        requires
            self.wf(),
        ensures
            view_result(r) == code_at_result(
                self.key(),
                self.digit_count(),
                self.step(),
                self.kind(),
                unix_secs,
            ),
    {
        match self.otp_type {
            OtpType::Hotp => Err(OtpError::MissingCounterForHotp),
            OtpType::Totp => {
                if self.secret.len() == 0 {
                    Err(OtpError::InvalidSecretEncoding)
                } else {
                    Ok(self.generate_hotp(unix_secs / self.period))
                }
            },
        }
    }

    fn generate_totp(&self) -> (r: Result<String, OtpError>)
        requires
            self.wf(),
            self.kind() == OtpType::Totp,
        ensures
            r == Err::<String, OtpError>(OtpError::ClockBeforeEpoch) || exists|t: u64|
                view_result(r) == #[trigger] code_at_result(
                    self.key(),
                    self.digit_count(),
                    self.step(),
                    self.kind(),
                    t,
                ),
    {
        match unix_time_secs() {
            None => Err(OtpError::ClockBeforeEpoch),
            Some(now) => self.code_at(now),
        }
    }

    /// The current code. Counter-based generators fail with
    /// `MissingCounterForHotp`; otherwise the result is `code_at` for the
    /// time the clock reads, or `ClockBeforeEpoch`.
    pub fn generate_code(&self) -> (r: Result<String, OtpError>)
        requires
            self.wf(),
        ensures
            self.kind() == OtpType::Hotp ==> r == Err::<String, OtpError>(
                OtpError::MissingCounterForHotp,
            ),
            self.kind() == OtpType::Totp ==> (r == Err::<String, OtpError>(
                OtpError::ClockBeforeEpoch) || exists|t: u64|
                view_result(r) == #[trigger] code_at_result(
                    self.key(),
                    self.digit_count(),
                    self.step(),
                    self.kind(),
                    t,
                )),
    {
        match self.otp_type {
            OtpType::Totp => self.generate_totp(),
            OtpType::Hotp => Err(OtpError::MissingCounterForHotp),
        }
    }
}

/// Code generation is deterministic: two generators with the same secret
/// and digit count give the same HOTP code for the same counter.
pub proof fn hotp_deterministic(a: &Otp, b: &Otp, counter: u64)
    requires
        a.key() == b.key(),
        a.digit_count() == b.digit_count(),
    ensures
        hotp_code(a.key(), a.digit_count(), counter) == hotp_code(b.key(), b.digit_count(), counter),
{
}

/// A HOTP code is `digits` decimal characters.
pub proof fn hotp_code_is_decimal(key: Seq<u8>, digits: nat, counter: u64)
    ensures
        hotp_code(key, digits, counter).len() == digits,
        forall|i: int| 0 <= i < digits ==> '0' <= #[trigger] hotp_code(key, digits, counter)[i] <= '9',
{
    lemma_padded_decimal_shape(hotp_value(key, digits, counter), digits);
}

/// Two instants in the same time step give the same result.
pub proof fn totp_same_window(o: &Otp, t1: u64, t2: u64)
    requires
        o.wf(),
        t1 / o.step() == t2 / o.step(),
    ensures
        code_at_result(o.key(), o.digit_count(), o.step(), o.kind(), t1) == code_at_result(
            o.key(),
            o.digit_count(),
            o.step(),
            o.kind(),
            t2,
        ),
{
}

} // verus!
