//! Token claims: who a bearer token speaks for and when it is valid. Signing
//! and checking the signature are done by the caller with a shared secret;
//! this module builds the claims and decides whether they are current.
use vstd::prelude::*;

verus! {

/// How long a token stays valid after it is issued, in seconds (a day).
pub const TOKEN_LIFETIME_SECS: usize = 86400;

/// The claims a token carries. `uid` is the user id in decimal, `jti` a
/// random identifier of the token, `iat` and `exp` the issue and expiry
/// times in seconds since the Unix epoch.
#[derive(Debug)]
pub struct Claims {
    pub exp: usize,
    pub iat: usize,
    pub jti: String,
    pub uid: String,
}

/// Why a token was refused.
#[derive(Debug, Clone, Copy, PartialEq, Eq, Structural)]
pub enum TokenError {
    /// The token is malformed, wrongly signed, expired or not yet valid.
    InvalidToken,
}

/// Whether claims issued at `iat` and expiring at `exp` are valid at `now`:
/// the expiry is not passed and the issue time is not in the future.
pub open spec fn is_current(exp: int, iat: int, now: int) -> bool {
    exp >= now && iat <= now
}

/// Relies on chrono's `Utc::now` and `DateTime::timestamp`: the current time
/// in whole seconds since the Unix epoch, as the system clock reports it.
#[verifier::external_body]
fn clock_timestamp() -> (r: i64) {
    chrono::Utc::now().timestamp()
}

/// Relies on uuid's `Uuid::new_v4` and its `Display`, which writes the
/// hyphenated form: a fresh random identifier of 36 characters.
#[verifier::external_body]
fn random_token_id() -> (r: String)
    ensures
        r@.len() == 36,
{
    uuid::Uuid::new_v4().to_string()
}

/// The current time in seconds since the Unix epoch, kept within the range
/// that leaves room for an expiry time: a reading later than that counts as
/// the latest time that still allows one. (chrono's clock reads no earlier
/// than the epoch; the lower end of the range is only checked here.)
pub fn now_seconds() -> (r: usize)
    ensures
        r <= usize::MAX - TOKEN_LIFETIME_SECS,
{
    let t = clock_timestamp();
    let latest = (usize::MAX - TOKEN_LIFETIME_SECS) as u64;
    if t < 0 {
        0
    } else if t as u64 > latest {
        latest as usize
    } else {
        t as usize
    }
}

impl Claims {
    /// Claims for `uid` with the token id `jti`, issued at `now` and expiring
    /// one lifetime later.
    pub fn issued_at(uid: String, jti: String, now: usize) -> (r: Claims)
        requires
            now <= usize::MAX - TOKEN_LIFETIME_SECS,
        ensures
            r == (Claims { exp: (now + TOKEN_LIFETIME_SECS) as usize, iat: now, jti, uid }),
    {
        Claims { exp: now + TOKEN_LIFETIME_SECS, iat: now, jti, uid }
    }

    /// Claims for `uid` with the token id `jti`, issued now by the system
    /// clock and expiring one lifetime later.
    pub fn new(uid: String, jti: String) -> (r: Claims)
        ensures
            r.uid == uid,
            r.jti == jti,
            r.iat <= usize::MAX - TOKEN_LIFETIME_SECS,
            r.exp == r.iat + TOKEN_LIFETIME_SECS,
    {
        let now = now_seconds();
        Claims::issued_at(uid, jti, now)
    }

    /// Claims for `uid` with a fresh random token id, issued now by the
    /// system clock and expiring one lifetime later.
    pub fn fresh(uid: String) -> (r: Claims)
        ensures
            r.uid == uid,
            r.jti@.len() == 36,
            r.iat <= usize::MAX - TOKEN_LIFETIME_SECS,
            r.exp == r.iat + TOKEN_LIFETIME_SECS,
    {
        let jti = random_token_id();
        Claims::new(uid, jti)
    }

    /// Whether these claims are valid at `now`.
    pub fn is_current_at(&self, now: usize) -> (r: bool)
        ensures
            r == is_current(self.exp as int, self.iat as int, now as int),
    {
        self.exp >= now && self.iat <= now
    }
}

/// Claims for the user `user_id` with a fresh random token id, issued now.
pub fn issue_claims(user_id: u32) -> (r: Claims)
    ensures
        r.uid@ == decimal_of(user_id as nat),
        r.jti@.len() == 36,
        r.iat <= usize::MAX - TOKEN_LIFETIME_SECS,
        r.exp == r.iat + TOKEN_LIFETIME_SECS,
{
    Claims::fresh(decimal_text(user_id))
}

/// Keeps claims whose signature was found good if they are valid at `now`;
/// this check stands whether or not the signature check looked at the times.
pub fn check_claims(claims: Claims, now: usize) -> (r: Result<Claims, TokenError>)
    ensures
        match r {
            Ok(c) => c == claims && is_current(claims.exp as int, claims.iat as int, now as int),
            Err(e) => e == TokenError::InvalidToken && !is_current(
                claims.exp as int,
                claims.iat as int,
                now as int,
            ),
        },
{
    if claims.is_current_at(now) {
        Ok(claims)
    } else {
        Err(TokenError::InvalidToken)
    }
}

/// Keeps claims whose signature was found good if they are valid now by the
/// system clock: the outcome is that of [`check_claims`] at some time in the
/// range that [`now_seconds`] reads.
pub fn accept_claims(claims: Claims) -> (r: Result<Claims, TokenError>)
    ensures
        match r {
            Ok(c) => c == claims,
            Err(e) => e == TokenError::InvalidToken,
        },
        exists|now: int|
            0 <= now <= usize::MAX - TOKEN_LIFETIME_SECS && #[trigger] is_current(
                claims.exp as int,
                claims.iat as int,
                now,
            ) == (r is Ok),
{
    let now = now_seconds();
    check_claims(claims, now)
}

/// The decimal digit character for `d`, below ten.
pub open spec fn digit_char(d: nat) -> char {
    ((48 + d) as u8) as char
}

/// The value of the decimal digit `c`.
pub open spec fn digit_value(c: char) -> int {
    c as int - 48
}

/// Whether every character of `s` is an ASCII decimal digit.
pub open spec fn all_digits(s: Seq<char>) -> bool {
    forall|i: int| 0 <= i < s.len() ==> '0' <= #[trigger] s[i] && s[i] <= '9'
}

/// The number that the decimal digits `s` write.
pub open spec fn digits_value(s: Seq<char>) -> int
    decreases s.len(),
{
    if s.len() == 0 {
        0
    } else {
        digits_value(s.drop_last()) * 10 + digit_value(s.last())
    }
}

/// `s` without one leading `+`, if it has one.
pub open spec fn unsigned_part(s: Seq<char>) -> Seq<char> {
    if s.len() > 0 && s[0] == '+' {
        s.drop_first()
    } else {
        s
    }
}

/// The user id that the text `s` writes: an optional `+`, then at least one
/// decimal digit, for a number that fits in 32 bits.
pub open spec fn user_id_of(s: Seq<char>) -> Option<u32> {
    let d = unsigned_part(s);
    if d.len() > 0 && all_digits(d) && digits_value(d) <= u32::MAX {
        Some(digits_value(d) as u32)
    } else {
        None
    }
}

proof fn lemma_digits_value_grows(s: Seq<char>, k: int)
    requires
        all_digits(s),
        0 <= k <= s.len(),
    ensures
        0 <= digits_value(s.take(k)) <= digits_value(s),
    decreases s.len(),
{
    if k == s.len() {
        assert(s.take(k) =~= s);
        lemma_digits_value_nonneg(s);
    } else {
        assert(s.drop_last().take(k) =~= s.take(k));
        lemma_digits_value_grows(s.drop_last(), k);
        lemma_digits_value_nonneg(s.drop_last());
    }
}

proof fn lemma_digits_value_nonneg(s: Seq<char>)
    requires
        all_digits(s),
    ensures
        digits_value(s) >= 0,
    decreases s.len(),
{
    if s.len() > 0 {
        lemma_digits_value_nonneg(s.drop_last());
    }
}

/// Reads a user id written as [`user_id_of`] describes.
pub fn parse_user_id(s: &str) -> (r: Option<u32>)
    ensures
        r == user_id_of(s@),
{
    let n = s.unicode_len();
    let mut start: usize = 0;
    if n > 0 && s.get_char(0) == '+' {
        start = 1;
    }
    let ghost d = s@.subrange(start as int, n as int);
    assert(d =~= unsigned_part(s@));
    if start >= n {
        return None;
    }
    let mut acc: u32 = 0;
    let mut i: usize = start;
    while i < n
        invariant
            start <= i <= n,
            n == s@.len(),
            d == s@.subrange(start as int, n as int),
            d == unsigned_part(s@),
            d.take(i - start) == s@.subrange(start as int, i as int),
            all_digits(s@.subrange(start as int, i as int)),
            acc == digits_value(s@.subrange(start as int, i as int)),
        decreases n - i,
    {
        let c = s.get_char(i);
        if c < '0' || c > '9' {
            assert(d[i - start] == c);
            return None;
        }
        let ghost prev = s@.subrange(start as int, i as int);
        let ghost next = s@.subrange(start as int, i + 1);
        assert(next.drop_last() =~= prev);
        assert(all_digits(next));
        let v = (c as u32) - 48;
        if acc > 429496729 || (acc == 429496729 && v > 5) {
            proof {
                assert(digits_value(next) > u32::MAX);
                assert(d.take(i + 1 - start) =~= next);
                if all_digits(d) {
                    lemma_digits_value_grows(d, i + 1 - start);
                }
            }
            return None;
        }
        acc = acc * 10 + v;
        i += 1;
        assert(d.take(i - start) =~= s@.subrange(start as int, i as int));
    }
    assert(d.take(n - start) =~= d);
    Some(acc)
}

/// The decimal text of a user id reads back as that id.
pub proof fn lemma_user_id_round_trip(id: u32)
    ensures
        user_id_of(decimal_of(id as nat)) == Some(id),
{
    lemma_decimal_digits(id as nat);
}

proof fn lemma_decimal_digits(n: nat)
    ensures
        decimal_of(n).len() > 0,
        all_digits(decimal_of(n)),
        digits_value(decimal_of(n)) == n,
        decimal_of(n)[0] != '+',
    decreases n,
{
    if n >= 10 {
        lemma_decimal_digits(n / 10);
        assert(decimal_of(n).drop_last() =~= decimal_of(n / 10));
        assert((n / 10) * 10 + n % 10 == n) by (nonlinear_arith);
        assert(digit_value(digit_char(n % 10)) == n % 10);
        assert(decimal_of(n).last() == digit_char(n % 10));
        assert(digits_value(decimal_of(n)) == digits_value(decimal_of(n / 10)) * 10 + n % 10);
    } else {
        assert(decimal_of(n).drop_last() =~= Seq::<char>::empty());
        assert(digit_value(digit_char(n)) == n);
        assert(decimal_of(n).last() == digit_char(n));
        assert(digits_value(decimal_of(n)) == digits_value(Seq::<char>::empty()) * 10 + n);
    }
}

/// The decimal text of `n`, without sign or leading zeros.
pub open spec fn decimal_of(n: nat) -> Seq<char>
    decreases n,
{
    if n < 10 {
        seq![digit_char(n)]
    } else {
        decimal_of(n / 10).push(digit_char(n % 10))
    }
}

/// Relies on std's `ToString` for `u32`, which writes the number in decimal.
#[verifier::external_body]
fn decimal_text(n: u32) -> (r: String)
    ensures
        r@ == decimal_of(n as nat),
{
    n.to_string()
}

} // verus!
