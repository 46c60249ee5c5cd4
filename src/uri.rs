//! Parsing of `otpauth://TYPE/[ISSUER:]NAME?secret=...&issuer=...` URIs.
use vstd::prelude::*;
use vstd::utf8::{decode_utf8, encode_utf8, valid_utf8};
use crate::config::Account;
use crate::error::OtpError;
use crate::otp::view_result;

verus! {

/// The lower-case folding of `str::to_lowercase`.
pub uninterp spec fn lower_of(s: Seq<char>) -> Seq<char>;

/// The White_Space property that `char::is_whitespace` and `str::trim` test.
pub uninterp spec fn white_space(c: char) -> bool;

/// The first position of `x` in `s`, or `s.len()` where there is none.
pub open spec fn index_of<A>(s: Seq<A>, x: A) -> nat
    decreases s.len(),
{
    if s.len() == 0 {
        0
    } else if s[0] == x {
        0
    } else {
        1 + index_of(s.drop_first(), x)
    }
}

/// How many white-space characters `s` starts with.
pub open spec fn leading_space(s: Seq<char>) -> nat
    decreases s.len(),
{
    if s.len() == 0 {
        0
    } else if white_space(s[0]) {
        1 + leading_space(s.drop_first())
    } else {
        0
    }
}

/// How many white-space characters `s` ends with.
pub open spec fn trailing_space(s: Seq<char>) -> nat
    decreases s.len(),
{
    if s.len() == 0 {
        0
    } else if white_space(s.last()) {
        1 + trailing_space(s.drop_last())
    } else {
        0
    }
}

/// `s` without leading and trailing white space.
pub open spec fn trim_chars(s: Seq<char>) -> Seq<char> {
    let t = s.subrange(leading_space(s) as int, s.len() as int);
    t.subrange(0, t.len() - trailing_space(t))
}

/// The value of an ASCII hexadecimal digit.
pub open spec fn hex_value(c: u8) -> Option<u8> {
    if 48 <= c <= 57 {
        Some((c - 48) as u8)
    } else if 65 <= c <= 70 {
        Some((c - 55) as u8)
    } else if 97 <= c <= 102 {
        Some((c - 87) as u8)
    } else {
        None
    }
}

/// Percent-decoding: `%XX` is the byte with hexadecimal value `XX`, `+` is
/// a space, any other byte stands for itself. `None` where a `%` is not
/// followed by two hexadecimal digits.
pub open spec fn percent_decode(b: Seq<u8>) -> Option<Seq<u8>>
    decreases b.len(),
{
    if b.len() == 0 {
        Some(seq![])
    } else if b[0] == 37 {
        if b.len() < 3 {
            None
        } else {
            match (hex_value(b[1]), hex_value(b[2])) {
                (Some(h), Some(l)) => match percent_decode(b.subrange(3, b.len() as int)) {
                    Some(r) => Some(seq![(h * 16 + l) as u8] + r),
                    None => None,
                },
                _ => None,
            }
        }
    } else {
        match percent_decode(b.drop_first()) {
            Some(r) => Some(seq![if b[0] == 43 { 32u8 } else { b[0] }] + r),
            None => None,
        }
    }
}

/// Percent-decoded text: the decoded bytes must be UTF-8.
pub open spec fn url_decoded(b: Seq<u8>) -> Result<Seq<char>, OtpError> {
    match percent_decode(b) {
        None => Err(OtpError::InvalidPercentEncoding),
        Some(d) => if valid_utf8(d) {
            Ok(decode_utf8(d))
        } else {
            Err(OtpError::NonTextDecodedBytes)
        },
    }
}

pub open spec fn scheme_prefix() -> Seq<u8> {
    seq![111u8, 116, 112, 97, 117, 116, 104, 58, 47, 47]
}

pub open spec fn default_issuer() -> Seq<char> {
    seq!['h', 'o', 's', 't']
}

pub open spec fn secret_key() -> Seq<char> {
    seq!['s', 'e', 'c', 'r', 'e', 't']
}

pub open spec fn issuer_key() -> Seq<char> {
    seq!['i', 's', 's', 'u', 'e', 'r']
}

/// `(issuer, name)` of a decoded label `[ISSUER:]NAME`: both trimmed; a
/// missing or blank issuer is `"host"`.
pub open spec fn label_parts(l: Seq<char>) -> (Seq<char>, Seq<char>) {
    let c = index_of(l, ':');
    if c < l.len() {
        let iss = trim_chars(l.subrange(0, c as int));
        let name = trim_chars(l.subrange(c + 1int, l.len() as int));
        (if iss.len() == 0 {
            default_issuer()
        } else {
            iss
        }, name)
    } else {
        (default_issuer(), trim_chars(l))
    }
}

/// One `key=value` query entry applied to `(secret, issuer)`. Entries
/// without `=` and keys other than `secret` and `issuer` change nothing.
pub open spec fn apply_param(e: Seq<u8>, secret: Option<Seq<char>>, issuer: Seq<char>) -> Result<
    (Option<Seq<char>>, Seq<char>),
    OtpError,
> {
    let eq = index_of(e, 61u8);
    if eq >= e.len() {
        Ok((secret, issuer))
    } else {
        match url_decoded(e.subrange(0, eq as int)) {
            Err(x) => Err(x),
            Ok(k) => match url_decoded(e.subrange(eq + 1int, e.len() as int)) {
                Err(x) => Err(x),
                Ok(v) => if lower_of(k) == secret_key() {
                    Ok((Some(v), issuer))
                } else if lower_of(k) == issuer_key() {
                    Ok((secret, v))
                } else {
                    Ok((secret, issuer))
                },
            },
        }
    }
}

/// The `&`-separated entries of `q` applied from left to right.
pub open spec fn apply_params(q: Seq<u8>, secret: Option<Seq<char>>, issuer: Seq<char>) -> Result<
    (Option<Seq<char>>, Seq<char>),
    OtpError,
>
    decreases q.len(),
{
    let a = index_of(q, 38u8);
    match apply_param(q.subrange(0, a as int), secret, issuer) {
        Err(x) => Err(x),
        Ok((s, i)) => if a >= q.len() {
            Ok((s, i))
        } else {
            apply_params(q.subrange(a + 1int, q.len() as int), s, i)
        },
    }
}

/// The account `(name, secret, issuer)` that the URI bytes `b` describe.
pub open spec fn parse_uri(b: Seq<u8>) -> Result<(Seq<char>, Seq<char>, Seq<char>), OtpError> {
    if b.len() < 10 || b.subrange(0, 10) != scheme_prefix() {
        Err(OtpError::InvalidUriScheme)
    } else {
        let r = b.subrange(10, b.len() as int);
        let t = index_of(r, 47u8);
        if t >= r.len() {
            Err(OtpError::MalformedUri)
        } else {
            let r2 = r.subrange(t + 1int, r.len() as int);
            let q = index_of(r2, 63u8);
            match url_decoded(r2.subrange(0, q as int)) {
                Err(x) => Err(x),
                Ok(l) => {
                    let (iss, name) = label_parts(l);
                    if name.len() == 0 {
                        Err(OtpError::EmptyAccountName)
                    } else {
                        let st = if q < r2.len() {
                            apply_params(r2.subrange(q + 1int, r2.len() as int), None, iss)
                        } else {
                            Ok((None, iss))
                        };
                        match st {
                            Err(x) => Err(x),
                            Ok((sec, iss2)) => match sec {
                                None => Err(OtpError::MissingSecretParameter),
                                Some(s) => if s.len() == 0 {
                                    Err(OtpError::EmptySecretParameter)
                                } else {
                                    Ok((name, s, iss2))
                                },
                            },
                        }
                    }
                },
            }
        }
    }
}

pub open spec fn view_account(r: Result<Account, OtpError>) -> Result<
    (Seq<char>, Seq<char>, Seq<char>),
    OtpError,
> {
    match r {
        Ok(a) => Ok(a@),
        Err(e) => Err(e),
    }
}

/// Relies on `String::from_utf8`: `Some` exactly for valid UTF-8, holding
/// the characters that the bytes encode.
#[verifier::external_body]
fn utf8_text(v: Vec<u8>) -> (r: Option<String>)
    ensures
        r is Some <==> valid_utf8(v@),
        r matches Some(s) ==> s@ == decode_utf8(v@),
{
    String::from_utf8(v).ok()
}

/// Relies on `str::to_lowercase`: the result depends on the characters alone.
#[verifier::external_body]
fn lowercase(s: &str) -> (r: String)
    ensures
        r@ == lower_of(s@),
{
    s.to_lowercase()
}

/// Relies on `str::trim`: leading and trailing White_Space characters removed.
#[verifier::external_body]
fn trim(s: &str) -> (r: &str)
    ensures
        r@ == trim_chars(s@),
        r@.len() > 0 ==> !white_space(r@[0]) && !white_space(r@.last()),
{
    s.trim()
}

proof fn lemma_index_of<A>(s: Seq<A>, x: A, k: int)
    requires
        0 <= k <= s.len(),
        forall|j: int| 0 <= j < k ==> s[j] != x,
        k < s.len() ==> s[k] == x,
    ensures
        index_of(s, x) == k,
    decreases s.len(),
{
    if s.len() > 0 && k > 0 {
        lemma_index_of(s.drop_first(), x, k - 1);
    }
}

/// The first position in `b[from..to]` that holds `x`, or `to`.
fn find_byte(b: &[u8], from: usize, to: usize, x: u8) -> (r: usize)
    requires
        from <= to <= b@.len(),
    ensures
        from <= r <= to,
        r - from == index_of(b@.subrange(from as int, to as int), x),
{
    let mut i = from;
    while i < to && b[i] != x
        invariant
            from <= i <= to <= b@.len(),
            forall|j: int| from <= j < i ==> b@[j] != x,
        decreases to - i,
    {
        i += 1;
    }
    proof {
        lemma_index_of(b@.subrange(from as int, to as int), x, i - from);
    }
    i
}

/// The first position of `x` in `s`, or its length.
fn find_char(s: &str, x: char) -> (r: usize)
    ensures
        r == index_of(s@, x),
{
    let n = s.unicode_len();
    let mut i: usize = 0;
    while i < n && s.get_char(i) != x
        invariant
            i <= n == s@.len(),
            forall|j: int| 0 <= j < i ==> s@[j] != x,
        decreases n - i,
    {
        i += 1;
    }
    proof {
        lemma_index_of(s@, x, i as int);
    }
    i
}

fn text_eq(a: &str, b: &str) -> (r: bool)
    ensures
        r == (a@ == b@),
{
    let n = a.unicode_len();
    if n != b.unicode_len() {
        return false;
    }
    let mut i: usize = 0;
    while i < n
        invariant
            i <= n == a@.len() == b@.len(),
            forall|j: int| 0 <= j < i ==> a@[j] == b@[j],
        decreases n - i,
    {
        if a.get_char(i) != b.get_char(i) {
            return false;
        }
        i += 1;
    }
    assert(a@ =~= b@);
    true
}

fn hex_digit(c: u8) -> (r: Option<u8>)
    ensures
        r == hex_value(c),
{
    if 48 <= c && c <= 57 {
        Some(c - 48)
    } else if 65 <= c && c <= 70 {
        Some(c - 55)
    } else if 97 <= c && c <= 102 {
        Some(c - 87)
    } else {
        None
    }
}

/// Percent-decodes `b[from..to]` into bytes.
fn percent_decode_range(b: &[u8], from: usize, to: usize) -> (r: Option<Vec<u8>>)
    requires
        from <= to <= b@.len(),
    ensures
        match r {
            Some(v) => percent_decode(b@.subrange(from as int, to as int)) == Some(v@),
            None => percent_decode(b@.subrange(from as int, to as int)) is None,
        },
{
    let ghost whole = b@.subrange(from as int, to as int);
    let mut out: Vec<u8> = Vec::new();
    let mut i = from;
    while i < to
        invariant
            from <= i <= to <= b@.len(),
            whole == b@.subrange(from as int, to as int),
            match percent_decode(b@.subrange(i as int, to as int)) {
                Some(rest) => percent_decode(whole) == Some(out@ + rest),
                None => percent_decode(whole) is None,
            },
        decreases to - i,
    {
        let ghost cur = b@.subrange(i as int, to as int);
        let ghost old_out = out@;
        let c = b[i];
        if c == 37 {
            if to - i < 3 {
                return None;
            }
            let h = hex_digit(b[i + 1]);
            let l = hex_digit(b[i + 2]);
            match (h, l) {
                (Some(h), Some(l)) => {
                    assert(cur.subrange(3, cur.len() as int) =~= b@.subrange(i + 3, to as int));
                    let y = h * 16 + l;
                    out.push(y);
                    i += 3;
                    proof {
                        if let Some(rest) = percent_decode(b@.subrange(i as int, to as int)) {
                            assert(old_out + (seq![y] + rest) =~= out@ + rest);
                        }
                    }
                },
                _ => {
                    return None;
                },
            }
        } else {
            assert(cur.drop_first() =~= b@.subrange(i + 1, to as int));
            let y = if c == 43 {
                32
            } else {
                c
            };
            out.push(y);
            i += 1;
            proof {
                if let Some(rest) = percent_decode(b@.subrange(i as int, to as int)) {
                    assert(old_out + (seq![y] + rest) =~= out@ + rest);
                }
            }
        }
    }
    assert(b@.subrange(to as int, to as int) =~= Seq::<u8>::empty());
    Some(out)
}

/// Percent-decodes `b[from..to]` into text.
fn url_decode_range(b: &[u8], from: usize, to: usize) -> (r: Result<String, OtpError>)
    requires
        from <= to <= b@.len(),
    ensures
        view_result(r) == url_decoded(b@.subrange(from as int, to as int)),
{
    match percent_decode_range(b, from, to) {
        None => Err(OtpError::InvalidPercentEncoding),
        Some(v) => match utf8_text(v) {
            None => Err(OtpError::NonTextDecodedBytes),
            Some(s) => Ok(s),
        },
    }
}

/// Percent-decodes `input`: `%XX` becomes the byte `XX`, `+` a space;
/// the bytes must then be UTF-8.
pub fn url_decode(input: &str) -> (r: Result<String, OtpError>)
    ensures
        view_result(r) == url_decoded(encode_utf8(input@)),
{
    let b = input.as_bytes();
    let r = url_decode_range(b, 0, b.len());
    assert(b@.subrange(0, b@.len() as int) =~= b@);
    r
}

fn has_scheme(b: &[u8]) -> (r: bool)
    ensures
        r == (b@.len() >= 10 && b@.subrange(0, 10) == scheme_prefix()),
{
    let prefix: [u8; 10] = [111, 116, 112, 97, 117, 116, 104, 58, 47, 47];
    assert(prefix@ =~= scheme_prefix());
    if b.len() < 10 {
        return false;
    }
    let mut i: usize = 0;
    while i < 10
        invariant
            i <= 10 <= b@.len(),
            prefix@ == scheme_prefix(),
            forall|j: int| 0 <= j < i ==> b@[j] == prefix@[j],
        decreases 10 - i,
    {
        if b[i] != prefix[i] {
            assert(b@.subrange(0, 10)[i as int] != scheme_prefix()[i as int]);
            return false;
        }
        i += 1;
    }
    assert(b@.subrange(0, 10) =~= scheme_prefix());
    true
}

fn host_text() -> (r: String)
    ensures
        r@ == default_issuer(),
{
    proof {
        reveal_strlit("host");
    }
    let r = String::from_str("host");
    assert(r@ =~= default_issuer());
    r
}

/// `(issuer, name)` of a decoded label.
fn split_label(l: &str) -> (r: (String, String))
    ensures
        (r.0@, r.1@) == label_parts(l@),
{
    let c = find_char(l, ':');
    let n = l.unicode_len();
    if c < n {
        let iss = trim(l.substring_char(0, c));
        let name = trim(l.substring_char(c + 1, n));
        let issuer = if iss.is_empty() {
            host_text()
        } else {
            iss.to_owned()
        };
        (issuer, name.to_owned())
    } else {
        (host_text(), trim(l).to_owned())
    }
}

pub open spec fn view_secret(s: Option<String>) -> Option<Seq<char>> {
    match s {
        Some(t) => Some(t@),
        None => None,
    }
}

pub open spec fn view_query(r: Result<(Option<String>, String), OtpError>) -> Result<
    (Option<Seq<char>>, Seq<char>),
    OtpError,
> {
    match r {
        Ok((s, i)) => Ok((view_secret(s), i@)),
        Err(e) => Err(e),
    }
}

fn key_is(k: &str, word: &str, Ghost(w): Ghost<Seq<char>>) -> (r: bool)
    requires
        word@ == w,
    ensures
        r == (k@ == w),
{
    text_eq(k, word)
}

/// The query `b[from..to]` applied to no secret and `issuer`.
fn apply_query(b: &[u8], from: usize, to: usize, label_issuer: String) -> (r: Result<
    (Option<String>, String),
    OtpError,
>)
    requires
        from <= to <= b@.len(),
    ensures
        view_query(r) == apply_params(b@.subrange(from as int, to as int), None, label_issuer@),
{
    let ghost issuer0 = label_issuer@;
    let mut secret: Option<String> = None;
    let mut issuer = label_issuer;
    let mut pos = from;
    proof {
        reveal_strlit("secret");
        reveal_strlit("issuer");
    }
    assert("secret"@ =~= secret_key());
    assert("issuer"@ =~= issuer_key());
    loop
        invariant
            from <= pos <= to <= b@.len(),
            issuer0 == label_issuer@,
            "secret"@ == secret_key(),
            "issuer"@ == issuer_key(),
            apply_params(b@.subrange(from as int, to as int), None, issuer0) == apply_params(
                b@.subrange(pos as int, to as int),
                view_secret(secret),
                issuer@,
            ),
        decreases to - pos,
    {
        let ghost q = b@.subrange(pos as int, to as int);
        let a = find_byte(b, pos, to, 38);
        let eq = find_byte(b, pos, a, 61);
        let ghost entry = q.subrange(0, a - pos);
        assert(entry =~= b@.subrange(pos as int, a as int));
        assert(entry.subrange(0, eq - pos) =~= b@.subrange(pos as int, eq as int));
        assert(index_of(q, 38u8) == a - pos);
        assert(index_of(entry, 61u8) == eq - pos);
        let ghost step = apply_param(entry, view_secret(secret), issuer@);
        assert(apply_params(q, view_secret(secret), issuer@) == match step {
            Err(x) => Err(x),
            Ok((s, i)) => if a >= to {
                Ok((s, i))
            } else {
                apply_params(q.subrange(a - pos + 1, q.len() as int), s, i)
            },
        });
        if eq < a {
            assert(entry.subrange(eq - pos + 1, entry.len() as int) =~= b@.subrange(
                eq + 1,
                a as int,
            ));
            let key = match url_decode_range(b, pos, eq) {
                Err(e) => {
                    return Err(e);
                },
                Ok(k) => k,
            };
            let value = match url_decode_range(b, eq + 1, a) {
                Err(e) => {
                    return Err(e);
                },
                Ok(v) => v,
            };
            let lk = lowercase(key.as_str());
            if key_is(lk.as_str(), "secret", Ghost(secret_key())) {
                secret = Some(value);
            } else if key_is(lk.as_str(), "issuer", Ghost(issuer_key())) {
                issuer = value;
            }
        }
        if a == to {
            return Ok((secret, issuer));
        }
        assert(q.subrange(a - pos + 1, q.len() as int) =~= b@.subrange(a + 1, to as int));
        pos = a + 1;
    }
}

/// Parses an `otpauth://` URI into an account.
pub fn parse_key_uri(uri: &str) -> (r: Result<Account, OtpError>)
    ensures
        view_account(r) == parse_uri(encode_utf8(uri@)),
{
    let b = uri.as_bytes();
    let n = b.len();
    if !has_scheme(b) {
        return Err(OtpError::InvalidUriScheme);
    }
    let ghost r0 = b@.subrange(10, n as int);
    let t = find_byte(b, 10, n, 47);
    if t == n {
        return Err(OtpError::MalformedUri);
    }
    let ghost r2 = r0.subrange(t - 10 + 1, r0.len() as int);
    assert(r2 =~= b@.subrange(t + 1, n as int));
    let q = find_byte(b, t + 1, n, 63);
    assert(r2.subrange(0, q - (t + 1)) =~= b@.subrange(t + 1, q as int));
    let label = match url_decode_range(b, t + 1, q) {
        Err(e) => {
            return Err(e);
        },
        Ok(l) => l,
    };
    let (issuer, name) = split_label(label.as_str());
    if name.as_str().is_empty() {
        return Err(OtpError::EmptyAccountName);
    }
    let (secret, issuer) = if q < n {
        assert(r2.subrange(q - (t + 1) + 1, r2.len() as int) =~= b@.subrange(q + 1, n as int));
        match apply_query(b, q + 1, n, issuer) {
            Err(e) => {
                return Err(e);
            },
            Ok(st) => st,
        }
    } else {
        (None, issuer)
    };
    match secret {
        None => Err(OtpError::MissingSecretParameter),
        Some(secret) => {
            if secret.as_str().is_empty() {
                Err(OtpError::EmptySecretParameter)
            } else {
                Ok(Account { name, secret, issuer })
            }
        },
    }
}

} // verus!
