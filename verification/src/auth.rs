//! Authentication: credential headers, client addresses, usernames,
//! API tokens, credential hashes and request-replay protection.
use vstd::prelude::*;
use crate::errors::{ApiError, AppError};
use crate::text::{all_ascii, ascii_lower_seq, chars_of, idx_from, find_char_from, is_alphanumeric, lemma_idx_from, slice_range, starts_with, starts_with_chars, string_of, trim, trim_chars, to_lowercase, unicode_alphanumeric, unicode_lowercase};

verus! {

// ---------------------------------------------------------------------------
// Header values
// ---------------------------------------------------------------------------

/// A byte `HeaderValue::to_str` accepts: visible ASCII or a tab.
pub open spec fn visible_ascii(b: u8) -> bool {
    (b >= 32 && b < 127) || b == 9
}

/// The text of a header value, when it is visible ASCII (`HeaderValue::to_str`).
pub open spec fn header_text(v: Seq<u8>) -> Option<Seq<char>> {
    if forall|i: int| 0 <= i < v.len() ==> visible_ascii(#[trigger] v[i]) {
        Some(Seq::new(v.len(), |i: int| v[i] as char))
    } else {
        None
    }
}

/// `HeaderValue::to_str`, as characters.
pub fn header_to_text(v: &[u8]) -> (r: Option<Vec<char>>)
    ensures
        match r {
            Some(t) => header_text(v@) == Some(t@),
            None => header_text(v@) is None,
        },
{
    let mut out: Vec<char> = Vec::new();
    let mut i: usize = 0;
    while i < v.len()
        invariant
            i <= v@.len(),
            out@ == Seq::new(i as nat, |j: int| v@[j] as char),
            forall|j: int| 0 <= j < i ==> visible_ascii(#[trigger] v@[j]),
        decreases v@.len() - i,
    {
        let b = v[i];
        if !((b >= 32 && b < 127) || b == 9) {
            return None;
        }
        out.push(b as char);
        assert(out@ =~= Seq::new((i + 1) as nat, |j: int| v@[j] as char));
        i = i + 1;
    }
    assert(out@ =~= Seq::new(v@.len(), |j: int| v@[j] as char));
    Some(out)
}

// ---------------------------------------------------------------------------
// Credentials: `Authorization: Bearer <username>:<token>`
// ---------------------------------------------------------------------------

pub open spec fn bearer_prefix() -> Seq<char> {
    "Bearer "@
}

/// The `(username, token)` pair an `Authorization` header carries.
pub open spec fn credentials_of(header: Option<Seq<u8>>) -> Result<(Seq<char>, Seq<char>), ApiError> {
    match header {
        None => Err(ApiError::MissingAuthHeader),
        Some(raw) => match header_text(raw) {
            None => Err(ApiError::InvalidAuthHeader),
            Some(auth) => if !starts_with(auth, bearer_prefix()) {
                Err(ApiError::InvalidAuthHeader)
            } else {
                let p = trim(auth.subrange(bearer_prefix().len() as int, auth.len() as int));
                match idx_from(p, ':', 0) {
                    None => Err(ApiError::InvalidAuthHeader),
                    Some(c) => {
                        let u = trim(p.subrange(0, c));
                        let t = trim(p.subrange(c + 1, p.len() as int));
                        if u.len() == 0 || t.len() == 0 {
                            Err(ApiError::InvalidAuthHeader)
                        } else {
                            Ok((u, t))
                        }
                    },
                }
            },
        },
    }
}

pub open spec fn opt_bytes(h: Option<&[u8]>) -> Option<Seq<u8>> {
    match h {
        Some(b) => Some(b@),
        None => None,
    }
}

/// Splits the `Authorization` header value (`None` when the header is
/// absent) into username and token.
pub fn extract_credentials(header: Option<&[u8]>) -> (r: Result<(String, String), AppError>)
    ensures
        match (r, credentials_of(opt_bytes(header))) {
            (Ok((u, t)), Ok((su, st))) => u@ == su && t@ == st,
            (Err(e), Err(se)) => e.view() == se,
            _ => false,
        },
{
    let raw = match header {
        None => return Err(AppError::MissingAuthHeader),
        Some(raw) => raw,
    };
    let auth = match header_to_text(raw) {
        None => return Err(AppError::InvalidAuthHeader),
        Some(a) => a,
    };
    let prefix = chars_of("Bearer ");
    if !starts_with_chars(&auth, &prefix) {
        return Err(AppError::InvalidAuthHeader);
    }
    let rest = slice_range(&auth, prefix.len(), auth.len());
    let p = trim_chars(&rest);
    let pn = p.len();
    match find_char_from(&p, ':', 0) {
        None => Err(AppError::InvalidAuthHeader),
        Some(c) => {
            proof {
                lemma_idx_from(p@, ':', 0);
            }
            let u = trim_chars(&slice_range(&p, 0, c));
            let t = trim_chars(&slice_range(&p, c + 1, pn));
            if u.len() == 0 || t.len() == 0 {
                Err(AppError::InvalidAuthHeader)
            } else {
                Ok((string_of(&u), string_of(&t)))
            }
        },
    }
}

// ---------------------------------------------------------------------------
// Client address
// ---------------------------------------------------------------------------

/// The client address: with `trust_proxy`, the first entry of a readable,
/// non-empty `X-Forwarded-For`; otherwise the peer address.
pub open spec fn client_ip_of(
    trust_proxy: bool,
    forwarded: Option<Seq<u8>>,
    peer: Option<Seq<char>>,
) -> Option<Seq<char>> {
    let from_header = match forwarded {
        Some(raw) => match header_text(raw) {
            Some(s) => {
                let first = match idx_from(s, ',', 0) {
                    Some(c) => s.subrange(0, c),
                    None => s,
                };
                if trim(first).len() > 0 {
                    Some(trim(first))
                } else {
                    None
                }
            },
            None => None,
        },
        None => None,
    };
    if trust_proxy && from_header is Some {
        from_header
    } else {
        peer
    }
}

pub open spec fn opt_string(s: Option<String>) -> Option<Seq<char>> {
    match s {
        Some(x) => Some(x@),
        None => None,
    }
}

/// Picks the address of the client of a request.
pub fn client_ip(trust_proxy: bool, forwarded: Option<&[u8]>, peer: Option<String>) -> (r: Option<String>)
    ensures
        opt_string(r) == client_ip_of(trust_proxy, opt_bytes(forwarded), opt_string(peer)),
{
    if trust_proxy {
        if let Some(raw) = forwarded {
            if let Some(s) = header_to_text(raw) {
                let first = match find_char_from(&s, ',', 0) {
                    Some(c) => {
                        proof {
                            lemma_idx_from(s@, ',', 0);
                        }
                        slice_range(&s, 0, c)
                    },
                    None => slice_range(&s, 0, s.len()),
                };
                assert(s@.subrange(0, s@.len() as int) =~= s@);
                let ip = trim_chars(&first);
                if ip.len() > 0 {
                    return Some(string_of(&ip));
                }
            }
        }
    }
    peer
}

// ---------------------------------------------------------------------------
// Usernames
// ---------------------------------------------------------------------------

/// A character allowed in usernames and identifiers.
pub open spec fn ident_char(c: char) -> bool {
    unicode_alphanumeric(c) || c == '-' || c == '_'
}

/// Every character is allowed in identifiers.
pub fn all_ident_chars(s: &[char]) -> (b: bool)
    ensures
        b == forall|i: int| 0 <= i < s@.len() ==> ident_char(#[trigger] s@[i]),
{
    let mut i: usize = 0;
    while i < s.len()
        invariant
            i <= s@.len(),
            forall|j: int| 0 <= j < i ==> ident_char(#[trigger] s@[j]),
        decreases s@.len() - i,
    {
        let c = s[i];
        if !(is_alphanumeric(c) || c == '-' || c == '_') {
            return false;
        }
        i = i + 1;
    }
    true
}

/// The UTF-8 encoding of `u` has fewer than two bytes: `u` is empty or a
/// single ASCII character (`str::len() < 2`).
pub open spec fn utf8_shorter_than_two(u: Seq<char>) -> bool {
    u.len() == 0 || (u.len() == 1 && u[0] < '\u{80}')
}

/// The username a registration request stores: trimmed and lower-cased,
/// at least two bytes long, of letters, digits, `-` and `_` only.
pub open spec fn normalized_username(raw: Seq<char>) -> Result<Seq<char>, ApiError> {
    let u = unicode_lowercase(trim(raw));
    if utf8_shorter_than_two(u) {
        Err(ApiError::Internal("Username must be ≥2 chars"@))
    } else if !(forall|i: int| 0 <= i < u.len() ==> ident_char(#[trigger] u[i])) {
        Err(ApiError::Internal("Alphanumeric, -, _ only"@))
    } else {
        Ok(u)
    }
}

/// Checks and normalises the username of a registration request.
pub fn normalize_username(raw: &str) -> (r: Result<String, AppError>)
    ensures
        match (r, normalized_username(raw@)) {
            (Ok(u), Ok(su)) => u@ == su,
            (Err(e), Err(se)) => e.view() == se,
            _ => false,
        },
{
    let t = crate::text::trim_str(raw);
    let u = to_lowercase(t.as_str());
    let uc = chars_of(u.as_str());
    if uc.len() == 0 || (uc.len() == 1 && uc[0] < '\u{80}') {
        return Err(AppError::Internal(String::from_str("Username must be ≥2 chars")));
    }
    if !all_ident_chars(&uc) {
        return Err(AppError::Internal(String::from_str("Alphanumeric, -, _ only")));
    }
    Ok(u)
}

// ---------------------------------------------------------------------------
// API tokens
// ---------------------------------------------------------------------------

/// A lower-case hexadecimal digit.
pub open spec fn is_hex_digit(c: char) -> bool {
    ('0' <= c && c <= '9') || ('a' <= c && c <= 'f')
}

/// Length of generated API tokens.
pub const TOKEN_LEN: usize = 64;

/// A uniformly drawn number below `n` (`rand::Rng::gen_range` on the
/// thread-local generator). Trusted: the number is below `n`; its value is
/// chance.
#[verifier::external_body]
fn random_below(n: u32) -> (r: u32)
    requires
        n > 0,
    ensures
        r < n,
{
    rand::Rng::gen_range(&mut rand::thread_rng(), 0..n)
}

/// The lower-case hexadecimal digit for `d` (below 16).
pub open spec fn hex_char(d: u32) -> char {
    if d < 10 {
        ('0' as u32 + d) as char
    } else {
        ('a' as u32 + (d - 10)) as char
    }
}

/// The token text that a sequence of draws below 16 spells.
pub open spec fn token_text(d: Seq<u32>) -> Seq<char> {
    Seq::new(d.len(), |i: int| hex_char(d[i]))
}

fn hex_digit(d: u32) -> (c: char)
    requires
        d < 16,
    ensures
        c == hex_char(d),
        is_hex_digit(c),
{
    if d < 10 {
        match d {
            0 => '0',
            1 => '1',
            2 => '2',
            3 => '3',
            4 => '4',
            5 => '5',
            6 => '6',
            7 => '7',
            8 => '8',
            _ => '9',
        }
    } else {
        match d {
            10 => 'a',
            11 => 'b',
            12 => 'c',
            13 => 'd',
            14 => 'e',
            _ => 'f',
        }
    }
}

/// The token spelled by draws below 16: one hexadecimal digit per draw.
pub fn token_from_draws(d: &Vec<u32>) -> (r: String)
    requires
        forall|i: int| 0 <= i < d@.len() ==> #[trigger] d@[i] < 16,
    ensures
        r@ == token_text(d@),
        forall|i: int| 0 <= i < r@.len() ==> is_hex_digit(#[trigger] r@[i]),
{
    let mut out: Vec<char> = Vec::new();
    let mut i: usize = 0;
    while i < d.len()
        invariant
            i <= d@.len(),
            forall|k: int| 0 <= k < d@.len() ==> #[trigger] d@[k] < 16,
            out@ == token_text(d@).take(i as int),
            forall|j: int| 0 <= j < out@.len() ==> is_hex_digit(#[trigger] out@[j]),
        decreases d@.len() - i,
    {
        let c = hex_digit(d[i]);
        out.push(c);
        assert(out@ =~= token_text(d@).take(i + 1));
        i = i + 1;
    }
    assert(token_text(d@).take(d@.len() as int) =~= token_text(d@));
    string_of(&out)
}

/// A fresh random API token: 64 lower-case hexadecimal digits, each from a
/// uniform draw below 16.
pub fn generate_token() -> (r: String)
    ensures
        r@.len() == 64,
        forall|i: int| 0 <= i < r@.len() ==> is_hex_digit(#[trigger] r@[i]),
        exists|d: Seq<u32>|
            d.len() == 64 && (forall|i: int| 0 <= i < d.len() ==> #[trigger] d[i] < 16) && r@ == token_text(d),
{
    let mut draws: Vec<u32> = Vec::new();
    let mut i: usize = 0;
    while i < TOKEN_LEN
        invariant
            i <= TOKEN_LEN,
            draws@.len() == i,
            forall|j: int| 0 <= j < draws@.len() ==> #[trigger] draws@[j] < 16,
        decreases TOKEN_LEN - i,
    {
        draws.push(random_below(16));
        i = i + 1;
    }
    token_from_draws(&draws)
}

// ---------------------------------------------------------------------------
// Credential hashes (argon2)
// ---------------------------------------------------------------------------

/// Hashes `input` with Argon2 defaults and a fresh random salt
/// (`Argon2::hash_password`), returning the PHC string or the error text.
/// Trusted: `input` verifies against the hash it returns (verification
/// recomputes the hash with the salt and parameters the string carries); the
/// hash itself is chance, through the salt. With the default parameters and
/// a generated salt the call fails only on a password longer than
/// `0xFFFF_FFFF` bytes (`MAX_PWD_LEN`), and a character takes at most four
/// bytes of UTF-8.
#[verifier::external_body]
fn argon2_hash(input: &str) -> (r: Result<String, String>)
    ensures
        r matches Ok(h) ==> argon2_outcome(input@, h@) == Some(true),
        4 * input@.len() <= 0xFFFF_FFFF ==> r is Ok,
{
    let salt = argon2::password_hash::SaltString::generate(
        &mut argon2::password_hash::rand_core::OsRng,
    );
    match argon2::PasswordHasher::hash_password(&argon2::Argon2::default(), input.as_bytes(), &salt) {
        Ok(h) => Ok(h.to_string()),
        Err(e) => Err(e.to_string()),
    }
}

/// Whether the PHC string `hash` parses (`None` when not) and, if so,
/// whether `input` verifies against it.
pub uninterp spec fn argon2_outcome(input: Seq<char>, hash: Seq<char>) -> Option<bool>;

/// Parses `hash` (`PasswordHash::new`) and verifies `input` against it
/// (`Argon2::verify_password`). Trusted: the outcome is a function of the
/// two texts alone; the error text is left unsaid.
#[verifier::external_body]
fn argon2_verify(input: &str, hash: &str) -> (r: Result<bool, String>)
    ensures
        match r {
            Ok(b) => argon2_outcome(input@, hash@) == Some(b),
            Err(_) => argon2_outcome(input@, hash@) is None,
        },
{
    match argon2::password_hash::PasswordHash::new(hash) {
        Ok(parsed) => Ok(
            argon2::PasswordVerifier::verify_password(
                &argon2::Argon2::default(),
                input.as_bytes(),
                &parsed,
            ).is_ok(),
        ),
        Err(e) => Err(e.to_string()),
    }
}

/// Hashes the credential `token ++ username`; the credential verifies
/// against the hash.
pub fn hash_cred(token: &str, username: &str) -> (r: Result<String, AppError>)
    ensures
        r matches Ok(h) ==> argon2_outcome(token@ + username@, h@) == Some(true),
        r matches Err(e) ==> e.view() is Internal,
        4 * (token@.len() + username@.len()) <= 0xFFFF_FFFF ==> r is Ok,
{
    let input = crate::errors::concat(token, username);
    match argon2_hash(input.as_str()) {
        Ok(h) => Ok(h),
        Err(m) => Err(AppError::Internal(m)),
    }
}

/// Checks the credential `token ++ username` against a stored hash.
pub fn verify_cred(token: &str, username: &str, hash: &str) -> (r: Result<bool, AppError>)
    ensures
        match r {
            Ok(b) => argon2_outcome(token@ + username@, hash@) == Some(b),
            Err(e) => argon2_outcome(token@ + username@, hash@) is None && e.view() is Internal,
        },
{
    let input = crate::errors::concat(token, username);
    match argon2_verify(input.as_str(), hash) {
        Ok(b) => Ok(b),
        Err(m) => Err(AppError::Internal(m)),
    }
}

// ---------------------------------------------------------------------------
// Replay headers: `X-Timestamp` and `X-Nonce`
// ---------------------------------------------------------------------------

/// Allowed distance between the request timestamp and the clock, in seconds.
pub const REPLAY_WINDOW_SECS: i64 = 30;

/// Value of a sequence of decimal digits.
pub open spec fn digits_value(d: Seq<char>) -> int
    decreases d.len(),
{
    if d.len() == 0 {
        0
    } else {
        digits_value(d.drop_last()) * 10 + (d.last() as int - '0' as int)
    }
}

pub open spec fn all_digits(d: Seq<char>) -> bool {
    forall|i: int| 0 <= i < d.len() ==> '0' <= #[trigger] d[i] && d[i] <= '9'
}

/// `str::parse::<i64>`: an optional `+` or `-`, then one or more decimal
/// digits, denoting a value in the range of `i64`.
pub open spec fn parse_i64(s: Seq<char>) -> Option<i64> {
    if s.len() == 0 {
        None
    } else {
        let neg = s[0] == '-';
        let d = if s[0] == '-' || s[0] == '+' {
            s.drop_first()
        } else {
            s
        };
        if d.len() == 0 || !all_digits(d) {
            None
        } else {
            let v = if neg {
                -digits_value(d)
            } else {
                digits_value(d)
            };
            if i64::MIN <= v <= i64::MAX {
                Some(v as i64)
            } else {
                None
            }
        }
    }
}

proof fn lemma_digits_prefix_le(d: Seq<char>, j: int)
    requires
        all_digits(d),
        0 <= j <= d.len(),
    ensures
        digits_value(d.take(j)) <= digits_value(d),
        0 <= digits_value(d.take(j)),
    decreases d.len() - j,
{
    if j < d.len() {
        lemma_digits_prefix_le(d, j + 1);
        assert(d.take(j + 1).drop_last() =~= d.take(j));
        assert(d.take(j + 1).last() == d[j]);
    } else {
        assert(d.take(j) =~= d);
    }
    lemma_digits_nonneg(d.take(j));
}

proof fn lemma_digits_nonneg(d: Seq<char>)
    requires
        all_digits(d),
    ensures
        digits_value(d) >= 0,
    decreases d.len(),
{
    if d.len() > 0 {
        assert(all_digits(d.drop_last())) by {
            assert forall|i: int| 0 <= i < d.drop_last().len() implies '0' <= #[trigger] d.drop_last()[i] && d.drop_last()[i] <= '9' by {
                assert(d.drop_last()[i] == d[i]);
            }
        }
        lemma_digits_nonneg(d.drop_last());
    }
}

/// Parses a signed decimal integer.
#[verifier::spinoff_prover]
#[verifier::rlimit(40)]
pub fn parse_i64_chars(s: &[char]) -> (r: Option<i64>)
    ensures
        r == parse_i64(s@),
{
    if s.len() == 0 {
        return None;
    }
    let neg = s[0] == '-';
    let start: usize = if s[0] == '-' || s[0] == '+' { 1 } else { 0 };
    let ghost d = if s@[0] == '-' || s@[0] == '+' { s@.drop_first() } else { s@ };
    assert(d =~= s@.subrange(start as int, s@.len() as int));
    if start >= s.len() {
        return None;
    }
    // 2^63, the largest magnitude any i64 can have
    let bound: u128 = 9_223_372_036_854_775_808;
    let mut acc: u128 = 0;
    let mut i: usize = start;
    while i < s.len()
        invariant
            start <= i <= s@.len(),
            s@.len() > 0,
            neg == (s@[0] == '-'),
            bound == 9_223_372_036_854_775_808u128,
            d == (if s@[0] == '-' || s@[0] == '+' { s@.drop_first() } else { s@ }),
            d =~= s@.subrange(start as int, s@.len() as int),
            all_digits(d.take(i - start)),
            acc as int == digits_value(d.take(i - start)),
            acc <= bound,
        decreases s@.len() - i,
    {
        let c = s[i];
        if !('0' <= c && c <= '9') {
            proof {
                assert(d[i - start] == c);
                assert(!all_digits(d)) by {
                    if all_digits(d) {
                        assert('0' <= d[i - start] && d[i - start] <= '9');
                    }
                }
            }
            return None;
        }
        let digit = (c as u32 - '0' as u32) as u128;
        assert(digit <= 9);
        assert(acc * 10 + digit <= bound * 10 + 9) by (nonlinear_arith)
            requires
                acc <= bound,
                digit <= 9,
        ;
        proof {
            assert(d.take(i - start + 1).drop_last() =~= d.take(i - start));
            assert(d.take(i - start + 1).last() == c);
            assert(all_digits(d.take(i - start + 1))) by {
                assert forall|k: int| 0 <= k < d.take(i - start + 1).len() implies '0' <= #[trigger] d.take(i - start + 1)[k] && d.take(i - start + 1)[k] <= '9' by {
                    if k < i - start {
                        assert(d.take(i - start + 1)[k] == d.take(i - start)[k]);
                    }
                }
            }
        }
        acc = acc * 10 + digit;
        if acc > bound {
            let ghost n0 = i - start + 1;
            // every further digit only grows the value
            let mut j = i + 1;
            while j < s.len()
                invariant
                    start < j <= s@.len(),
                    i < j,
                    n0 == i - start + 1,
                    s@.len() > 0,
                    bound == 9_223_372_036_854_775_808u128,
                    d == (if s@[0] == '-' || s@[0] == '+' { s@.drop_first() } else { s@ }),
                    d =~= s@.subrange(start as int, s@.len() as int),
                    all_digits(d.take(n0)),
                    forall|k: int| n0 <= k < j - start ==> '0' <= #[trigger] d[k] && d[k] <= '9',
                decreases s@.len() - j,
            {
                let c2 = s[j];
                if !('0' <= c2 && c2 <= '9') {
                    proof {
                        assert(d[j - start] == c2);
                        assert(!all_digits(d)) by {
                            if all_digits(d) {
                                assert('0' <= d[j - start] && d[j - start] <= '9');
                            }
                        }
                    }
                    return None;
                }
                proof {
                    assert(d[j - start] == c2);
                }
                j = j + 1;
            }
            proof {
                assert(all_digits(d)) by {
                    assert forall|k: int| 0 <= k < d.len() implies '0' <= #[trigger] d[k] && d[k] <= '9' by {
                        if k < n0 {
                            assert(d.take(n0)[k] == d[k]);
                        }
                    }
                }
                lemma_digits_prefix_le(d, n0);
            }
            return None;
        }
        i = i + 1;
    }
    proof {
        assert(d.take(d.len() as int) =~= d);
    }
    if neg {
        Some((0 - (acc as i128)) as i64)
    } else if acc <= 9_223_372_036_854_775_807 {
        Some(acc as i64)
    } else {
        None
    }
}

/// The `(timestamp, nonce)` of a request at clock time `now` (seconds).
pub open spec fn replay_headers_of(ts: Option<Seq<u8>>, nonce: Option<Seq<u8>>, now: i64) -> Result<(i64, Seq<char>), ApiError> {
    match ts {
        None => Err(ApiError::TimestampExpired),
        Some(raw) => match header_text(raw) {
            None => Err(ApiError::TimestampExpired),
            Some(t) => match parse_i64(trim(t)) {
                None => Err(ApiError::TimestampExpired),
                Some(v) => if now - v > REPLAY_WINDOW_SECS || v - now > REPLAY_WINDOW_SECS {
                    Err(ApiError::TimestampExpired)
                } else {
                    match nonce {
                        None => Err(ApiError::ReplayDetected),
                        Some(nraw) => match header_text(nraw) {
                            None => Err(ApiError::ReplayDetected),
                            Some(n) => if trim(n).len() == 0 {
                                Err(ApiError::ReplayDetected)
                            } else {
                                Ok((v, trim(n)))
                            },
                        },
                    }
                },
            },
        },
    }
}

/// Reads the `X-Timestamp` and `X-Nonce` headers against the clock time
/// `now` (seconds since the Unix epoch).
pub fn extract_replay_headers_at(ts: Option<&[u8]>, nonce: Option<&[u8]>, now: i64) -> (r: Result<(i64, String), AppError>)
    ensures
        match (r, replay_headers_of(opt_bytes(ts), opt_bytes(nonce), now)) {
            (Ok((v, n)), Ok((sv, sn))) => v == sv && n@ == sn,
            (Err(e), Err(se)) => e.view() == se,
            _ => false,
        },
{
    let raw = match ts {
        None => return Err(AppError::TimestampExpired),
        Some(raw) => raw,
    };
    let t = match header_to_text(raw) {
        None => return Err(AppError::TimestampExpired),
        Some(t) => t,
    };
    let v = match parse_i64_chars(&trim_chars(&t)) {
        None => return Err(AppError::TimestampExpired),
        Some(v) => v,
    };
    let diff = (now as i128) - (v as i128);
    if diff > REPLAY_WINDOW_SECS as i128 || diff < -(REPLAY_WINDOW_SECS as i128) {
        return Err(AppError::TimestampExpired);
    }
    let nraw = match nonce {
        None => return Err(AppError::ReplayDetected),
        Some(n) => n,
    };
    let n = match header_to_text(nraw) {
        None => return Err(AppError::ReplayDetected),
        Some(n) => n,
    };
    let nt = trim_chars(&n);
    if nt.len() == 0 {
        return Err(AppError::ReplayDetected);
    }
    Ok((v, string_of(&nt)))
}

/// Seconds since the Unix epoch on the system clock (`SystemTime::now`).
/// Trusted for nothing: the clock can read anything.
#[verifier::external_body]
pub(crate) fn unix_now_secs() -> (t: i64) {
    std::time::SystemTime::now()
        .duration_since(std::time::UNIX_EPOCH)
        .map(|d| d.as_secs() as i64)
        .unwrap_or(0)
}

/// Reads the replay headers of a request against the current time.
pub fn extract_replay_headers(ts: Option<&[u8]>, nonce: Option<&[u8]>) -> (r: Result<(i64, String), AppError>)
    ensures
        exists|now: i64|
            #![trigger replay_headers_of(opt_bytes(ts), opt_bytes(nonce), now)]
            match (r, replay_headers_of(opt_bytes(ts), opt_bytes(nonce), now)) {
            (Ok((v, n)), Ok((sv, sn))) => v == sv && n@ == sn,
            (Err(e), Err(se)) => e.view() == se,
            _ => false,
        },
{
    let now = unix_now_secs();
    extract_replay_headers_at(ts, nonce, now)
}

// ---------------------------------------------------------------------------
// API key expiry
// ---------------------------------------------------------------------------

/// The instant a `%Y-%m-%d %H:%M:%S` text denotes as UTC, in seconds since
/// the epoch, or `None` when it does not parse.
pub uninterp spec fn naive_datetime_secs(s: Seq<char>) -> Option<i64>;

/// `chrono::NaiveDateTime::parse_from_str(s, "%Y-%m-%d %H:%M:%S")`, read as
/// UTC. Trusted: the outcome is a function of the text alone.
#[verifier::external_body]
pub(crate) fn parse_utc_text(s: &str) -> (r: Option<i64>)
    ensures
        r == naive_datetime_secs(s@),
{
    chrono::NaiveDateTime::parse_from_str(s, "%Y-%m-%d %H:%M:%S").ok().map(|dt| dt.and_utc().timestamp())
}

/// The `%Y-%m-%d %H:%M:%S` text of the UTC instant `secs` seconds after the
/// epoch, or `None` for an instant outside the dates that can be written.
pub uninterp spec fn utc_text(secs: i64) -> Option<Seq<char>>;

/// `chrono::DateTime::from_timestamp(secs, 0)` written with
/// `format("%Y-%m-%d %H:%M:%S")`. Trusted: the outcome is a function of
/// `secs` alone.
#[verifier::external_body]
fn format_utc(secs: i64) -> (r: Option<String>)
    ensures
        match r {
            Some(t) => utc_text(secs) == Some(t@),
            None => utc_text(secs) is None,
        },
{
    chrono::DateTime::from_timestamp(secs, 0).map(|dt| dt.format("%Y-%m-%d %H:%M:%S").to_string())
}

/// The current UTC time as whole seconds and the nanoseconds past them
/// (`chrono::Utc::now`). Trusted: the nanoseconds are below one second
/// (`Utc::now` builds the time from `Duration::subsec_nanos` of the system
/// clock, so it never holds a leap second); the time itself is the clock's.
#[verifier::external_body]
pub(crate) fn utc_now() -> (r: (i64, u32))
    ensures
        r.1 < 1_000_000_000,
{
    let now = chrono::Utc::now();
    (now.timestamp(), now.timestamp_subsec_nanos())
}

/// Whether an API key with the given expiry text has expired at the time
/// `now_secs` + `now_nanos` nanoseconds: a text that does not parse never
/// expires, nor does a missing one.
pub open spec fn key_expired(expires_at: Option<Seq<char>>, now_secs: i64, now_nanos: u32) -> bool {
    match expires_at {
        Some(t) => match naive_datetime_secs(t) {
            Some(exp) => now_secs > exp || (now_secs == exp && now_nanos > 0),
            None => false,
        },
        None => false,
    }
}

pub open spec fn opt_str(s: Option<&str>) -> Option<Seq<char>> {
    match s {
        Some(x) => Some(x@),
        None => None,
    }
}

/// Refuses an expired API key, judged at the given time.
pub fn check_key_expiry_at(expires_at: Option<&str>, now_secs: i64, now_nanos: u32) -> (r: Result<(), AppError>)
    ensures
        r is Err <==> key_expired(opt_str(expires_at), now_secs, now_nanos),
        r matches Err(e) ==> e.view() == ApiError::ApiKeyExpired,
{
    if let Some(t) = expires_at {
        if let Some(exp) = parse_utc_text(t) {
            if now_secs > exp || (now_secs == exp && now_nanos > 0) {
                return Err(AppError::ApiKeyExpired);
            }
        }
    }
    Ok(())
}

/// Refuses the API key of `user` once it has expired.
pub fn check_key_expiry(user: &crate::models::User) -> (r: Result<(), AppError>)
    ensures
        exists|s: i64, n: u32| (r is Err <==> #[trigger] key_expired(opt_string(user.api_key_expires_at), s, n)),
        r matches Err(e) ==> e.view() == ApiError::ApiKeyExpired,
{
    let (s, n) = utc_now();
    let exp = match &user.api_key_expires_at {
        Some(t) => Some(t.as_str()),
        None => None,
    };
    let r = check_key_expiry_at(exp, s, n);
    assert(opt_str(exp) == opt_string(user.api_key_expires_at));
    r
}

// ---------------------------------------------------------------------------
// IP whitelist
// ---------------------------------------------------------------------------

/// How long an IP stays whitelisted after its last use: twelve hours.
pub const WHITELIST_TTL_SECS: i64 = 43200;

/// What the whitelist does with a request.
#[derive(Debug)]
pub enum WhitelistAction {
    /// Whitelisting is off: let the request through.
    Allow,
    /// The IP is whitelisted for the user: refresh its entry and let it through.
    Refresh,
    /// The user has no whitelisted IP: whitelist this one and let it through.
    Register,
    /// Another IP is whitelisted for the user: refuse.
    Deny,
}

/// Entries last used before this instant have expired.
pub open spec fn whitelist_cutoff_of(now_secs: int) -> int {
    now_secs - WHITELIST_TTL_SECS
}

/// The expiry cutoff for a request at `now_secs`.
pub fn whitelist_cutoff(now_secs: i64) -> (r: i64)
    requires
        now_secs >= i64::MIN + WHITELIST_TTL_SECS,
    ensures
        r == whitelist_cutoff_of(now_secs as int),
{
    now_secs - WHITELIST_TTL_SECS
}

/// Decides a request from the number of live entries for this user and IP
/// and for this user at all (after expired entries were pruned): the first
/// IP a user comes from is bound to the user until it goes unused for
/// twelve hours.
pub fn whitelist_step(enabled: bool, live_for_ip: i64, live_for_user: i64) -> (r: WhitelistAction)
    ensures
        !enabled ==> r is Allow,
        enabled && live_for_ip > 0 ==> r is Refresh,
        enabled && live_for_ip <= 0 && live_for_user == 0 ==> r is Register,
        enabled && live_for_ip <= 0 && live_for_user != 0 ==> r is Deny,
{
    if !enabled {
        WhitelistAction::Allow
    } else if live_for_ip > 0 {
        WhitelistAction::Refresh
    } else if live_for_user == 0 {
        WhitelistAction::Register
    } else {
        WhitelistAction::Deny
    }
}

/// The answer to a request for each action: refused only when denied.
pub fn whitelist_verdict(a: &WhitelistAction) -> (r: Result<(), AppError>)
    ensures
        *a is Deny ==> r matches Err(AppError::IpNotWhitelisted),
        !(*a is Deny) ==> r is Ok,
{
    match a {
        WhitelistAction::Deny => Err(AppError::IpNotWhitelisted),
        _ => Ok(()),
    }
}

/// Refuses to let a user delete their own account.
pub fn delete_user_check(requester_id: &str, id: &str) -> (r: Result<(), AppError>)
    ensures
        requester_id@ == id@ ==> (r matches Err(AppError::Internal(m)) && m@ == "Cannot delete yourself"@),
        requester_id@ != id@ ==> r is Ok,
{
    if crate::text::str_eq(requester_id, id) {
        Err(AppError::Internal(String::from_str("Cannot delete yourself")))
    } else {
        Ok(())
    }
}

/// Admin routes need a sudoer: no user is an unknown key, a plain user is
/// refused.
pub fn sudo_check(user: Option<&crate::models::User>) -> (r: Result<(), AppError>)
    ensures
        user is None ==> r matches Err(AppError::ApiKeyNotFound),
        user matches Some(u) && !u.is_sudoer ==> r matches Err(AppError::SudoRequired),
        user matches Some(u) && u.is_sudoer ==> r is Ok,
{
    match user {
        None => Err(AppError::ApiKeyNotFound),
        Some(u) => if u.is_sudoer {
            Ok(())
        } else {
            Err(AppError::SudoRequired)
        },
    }
}

/// `v` brought into `lo..=hi`.
pub open spec fn clamp(v: int, lo: int, hi: int) -> int {
    if v < lo {
        lo
    } else if v > hi {
        hi
    } else {
        v
    }
}

/// Seconds left before a whitelist entry last used at `updated_secs`
/// expires, never negative (and at most `i64::MAX`).
pub fn whitelist_remaining(updated_secs: i64, now_secs: i64) -> (r: i64)
    ensures
        r == clamp(updated_secs + WHITELIST_TTL_SECS - now_secs, 0, i64::MAX as int),
{
    let left: i128 = updated_secs as i128 + WHITELIST_TTL_SECS as i128 - now_secs as i128;
    if left <= 0 {
        0
    } else if left > i64::MAX as i128 {
        i64::MAX
    } else {
        left as i64
    }
}

/// Seconds left at `now_secs` on a whitelist entry whose last use is the
/// database time `updated_at`; none when that text is not a time.
pub open spec fn remaining_at_of(updated_at: Seq<char>, now_secs: int) -> int {
    match naive_datetime_secs(updated_at) {
        Some(t) => clamp(t + WHITELIST_TTL_SECS - now_secs, 0, i64::MAX as int),
        None => 0,
    }
}

/// The remaining whitelist time reported to a user.
pub fn whitelist_remaining_at(updated_at: &str, now_secs: i64) -> (r: i64)
    ensures
        r == remaining_at_of(updated_at@, now_secs as int),
{
    match parse_utc_text(updated_at) {
        Some(t) => whitelist_remaining(t, now_secs),
        None => 0,
    }
}

/// The database texts a whitelist check at `now_secs` works with: the time
/// written on a used entry, and the cutoff twelve hours earlier before which
/// entries have expired. `None` when either cannot be written as a date.
pub fn whitelist_times(now_secs: i64) -> (r: Option<(String, String)>)
    ensures
        match r {
            Some((n, c)) => now_secs >= i64::MIN + WHITELIST_TTL_SECS && utc_text(now_secs) == Some(n@)
                && utc_text((now_secs - WHITELIST_TTL_SECS) as i64) == Some(c@),
            None => now_secs < i64::MIN + WHITELIST_TTL_SECS || utc_text(now_secs) is None || utc_text(
                (now_secs - WHITELIST_TTL_SECS) as i64,
            ) is None,
        },
{
    if now_secs < i64::MIN + WHITELIST_TTL_SECS {
        return None;
    }
    let now = format_utc(now_secs);
    let cutoff = format_utc(whitelist_cutoff(now_secs));
    match (now, cutoff) {
        (Some(n), Some(c)) => Some((n, c)),
        _ => None,
    }
}

/// The instant `days` days after `now_secs`, when it fits in an `i64`.
pub open spec fn days_later(now_secs: int, days: int) -> Option<i64> {
    let t = now_secs + days * 86400;
    if i64::MIN <= t <= i64::MAX {
        Some(t as i64)
    } else {
        None
    }
}

/// The times written on a user record made at `now_secs` whose key lasts
/// `expires_days` days: the creation time, and the expiry unless the key
/// never expires (zero days). `None` when a time cannot be written as a date.
pub fn user_record_times(now_secs: i64, expires_days: u64) -> (r: Option<(String, Option<String>)>)
    ensures
        r is Some <==> (utc_text(now_secs) is Some && (expires_days == 0 || (days_later(
            now_secs as int,
            expires_days as int,
        ) matches Some(t) && utc_text(t) is Some))),
        r matches Some((c, e)) ==> utc_text(now_secs) == Some(c@) && (expires_days == 0 ==> e is None) && (
        expires_days > 0 ==> (e matches Some(x) && days_later(now_secs as int, expires_days as int) matches Some(
            t,
        ) && utc_text(t) == Some(x@))),
{
    let created = match format_utc(now_secs) {
        Some(c) => c,
        None => return None,
    };
    if expires_days == 0 {
        return Some((created, None));
    }
    let t: i128 = now_secs as i128 + expires_days as i128 * 86400;
    if t < i64::MIN as i128 || t > i64::MAX as i128 {
        return None;
    }
    match format_utc(t as i64) {
        Some(x) => Some((created, Some(x))),
        None => None,
    }
}

/// The name of a sudo user created from the command line: trimmed and
/// lower-cased, refused when shorter than two bytes of UTF-8.
pub fn sudo_username(raw: &str) -> (r: Option<String>)
    ensures
        match r {
            Some(u) => u@ == unicode_lowercase(trim(raw@)) && !utf8_shorter_than_two(u@),
            None => utf8_shorter_than_two(unicode_lowercase(trim(raw@))),
        },
{
    let t = crate::text::trim_str(raw);
    let u = to_lowercase(t.as_str());
    let uc = chars_of(u.as_str());
    if uc.len() == 0 || (uc.len() == 1 && uc[0] < '\u{80}') {
        None
    } else {
        Some(u)
    }
}

} // verus!
