//! Logging in, and what a request needs to be let through. Session times are
//! seconds since the Unix epoch; the throttle counts milliseconds.
use vstd::prelude::*;
use crate::auth;
use crate::auth::{SessionRecord, UserRecord};
use crate::crypto;
use crate::text;
use crate::throttle;
use crate::throttle::Throttle;

verus! {

pub const SESSION_COOKIE: &'static str = "tlsproxy_session";

pub const SESSION_HOURS: i64 = 12;

/// Five minutes.
pub const LOGIN_WINDOW: u64 = 300000;

pub const LOGIN_LIMIT: u32 = 5;

/// The key under which logins of a user are counted.
pub open spec fn login_key(username: Seq<char>) -> Seq<char> {
    text::lower(text::trimmed(username))
}

/// Whether a user may log in: it is not disabled, and the password is the
/// right one.
pub open spec fn lets_in(user: Option<UserRecord>, password: Seq<char>) -> bool {
    match user {
        Some(u) => !u.disabled && crypto::argon2_accepts(u.password_hash@, vstd::utf8::encode_utf8(password)),
        None => false,
    }
}

/// What a login comes to.
#[derive(Debug)]
pub enum LoginAnswer {
    /// Too many logins failed.
    TooManyAttempts,
    /// The user or the password is wrong.
    Refused,
    /// A session was made; the token goes into the cookie.
    LoggedIn { session: SessionRecord, token: String },
}

/// The text of a cookie.
pub open spec fn cookie_text(token: Seq<char>, max_age: Seq<char>) -> Seq<char> {
    SESSION_COOKIE@ + "="@ + token + "; Path=/; Max-Age="@ + max_age + "; HttpOnly; Secure; SameSite=Strict"@
}

/// The cookie that carries a session.
pub fn session_cookie(token: &str) -> (r: String)
    ensures
        r@ == cookie_text(token@, text::decimal(43200)),
{
    let mut out = text::owned(SESSION_COOKIE);
    out.push_str("=");
    out.push_str(token);
    out.push_str("; Path=/; Max-Age=");
    text::push_decimal(&mut out, 43200);
    out.push_str("; HttpOnly; Secure; SameSite=Strict");
    out
}

/// The cookie that ends a session.
pub fn logout_cookie() -> (r: String)
    ensures
        r@ == cookie_text(Seq::<char>::empty(), "0"@),
{
    let mut out = text::owned(SESSION_COOKIE);
    out.push_str("=");
    out.push_str("; Path=/; Max-Age=");
    out.push_str("0");
    out.push_str("; HttpOnly; Secure; SameSite=Strict");
    assert(out@ =~= cookie_text(Seq::<char>::empty(), "0"@));
    out
}

/// Whether `s` is a session of a user that begins now.
pub open spec fn session_is(s: SessionRecord, token: Seq<char>, username: Seq<char>, now: i64) -> bool {
    &&& s.token_hash@ == auth::hash_of_token(token)
    &&& s.username@ == username
    &&& auth::is_token(s.csrf_token@)
    &&& s.created_at == Some(now)
    &&& s.expires_at == Some((now + SESSION_HOURS * 3600) as i64)
}

/// The counts once a login that was let in or not was counted.
pub open spec fn after_login(m: Map<Seq<char>, (u32, u64)>, key: Seq<char>, let_in: bool, clock: u64) -> Map<
    Seq<char>,
    (u32, u64),
> {
    if let_in {
        m.remove(key)
    } else {
        throttle::counted(m, key, clock)
    }
}

/// Whether a user may try to log in: fewer than five attempts failed in five
/// minutes.
pub fn may_log_in(attempts: &mut Throttle, username: &str, clock: u64) -> (r: bool)
    requires
        old(attempts).wf(),
    ensures
        final(attempts).wf(),
        final(attempts)@ == throttle::current(old(attempts)@, clock, LOGIN_WINDOW),
        r == (throttle::count_of(final(attempts)@, login_key(username@)) < LOGIN_LIMIT),
{
    let all = text::chars_of(username);
    let key = text::string_of(text::to_lower(text::trim(all.as_slice())).as_slice());
    attempts.prune(clock, LOGIN_WINDOW);
    attempts.count(&key) < LOGIN_LIMIT
}

/// Answers a login: `let_in` is whether the user is there, not disabled, and
/// has the given password. A login that fails counts against its user; five in
/// five minutes are too many.
pub fn decide_login(
    attempts: &mut Throttle,
    username: &str,
    user: &Option<UserRecord>,
    let_in: bool,
    now: i64,
    clock: u64,
) -> (r: LoginAnswer)
    requires
        old(attempts).wf(),
        let_in ==> user is Some,
        crate::utc::MIN_SECONDS <= now <= crate::utc::MAX_SECONDS,
    ensures
        final(attempts).wf(),
        ({
            let m = throttle::current(old(attempts)@, clock, LOGIN_WINDOW);
            let key = login_key(username@);
            if throttle::count_of(m, key) >= LOGIN_LIMIT {
                r is TooManyAttempts && final(attempts)@ == m
            } else {
                &&& final(attempts)@ == after_login(m, key, let_in, clock)
                &&& !let_in ==> r is Refused
                &&& let_in ==> (r matches LoginAnswer::LoggedIn { session, token } && auth::is_token(token@) && session_is(
                    session,
                    token@,
                    (user->0).username@,
                    now,
                ))
            }
        }),
{
    let all = text::chars_of(username);
    let key = text::string_of(text::to_lower(text::trim(all.as_slice())).as_slice());
    attempts.prune(clock, LOGIN_WINDOW);
    if attempts.count(&key) >= LOGIN_LIMIT {
        return LoginAnswer::TooManyAttempts;
    }
    if !let_in {
        attempts.add_attempt(&key, clock);
        return LoginAnswer::Refused;
    }
    attempts.forget(&key);
    match user {
        Some(u) => {
            let token = auth::random_token();
            let csrf_token = auth::random_token();
            let session = SessionRecord {
                token_hash: auth::token_hash(token.as_str()),
                username: u.username.clone(),
                csrf_token,
                created_at: Some(now),
                expires_at: Some(now + SESSION_HOURS * 3600),
            };
            LoginAnswer::LoggedIn { session, token }
        },
        None => LoginAnswer::Refused,
    }
}

/// Whether a user may log in with a password.
pub fn check_login(user: &Option<UserRecord>, password: &str) -> (r: bool)
    ensures
        r == lets_in(*user, password@),
{
    match user {
        Some(u) => !u.disabled && auth::verify_password(u.password_hash.as_str(), password),
        None => false,
    }
}

/// Answers a login. A user that made too many attempts is refused before its
/// password is looked at.
pub fn login(attempts: &mut Throttle, username: &str, password: &str, user: &Option<UserRecord>, now: i64, clock: u64) -> (r:
    LoginAnswer)
    requires
        old(attempts).wf(),
        crate::utc::MIN_SECONDS <= now <= crate::utc::MAX_SECONDS,
    ensures
        final(attempts).wf(),
        ({
            let m = throttle::current(old(attempts)@, clock, LOGIN_WINDOW);
            let key = login_key(username@);
            let let_in = lets_in(*user, password@);
            if throttle::count_of(m, key) >= LOGIN_LIMIT {
                r is TooManyAttempts && final(attempts)@ == m
            } else {
                &&& final(attempts)@ == after_login(m, key, let_in, clock)
                &&& !let_in ==> r is Refused
                &&& let_in ==> (r matches LoginAnswer::LoggedIn { session, token } && auth::is_token(token@) && session_is(
                    session,
                    token@,
                    (user->0).username@,
                    now,
                ))
            }
        }),
{
    if !may_log_in(attempts, username, clock) {
        return LoginAnswer::TooManyAttempts;
    }
    let ghost m = attempts@;
    assert(throttle::current(m, clock, LOGIN_WINDOW) =~= m);
    let let_in = check_login(user, password);
    decide_login(attempts, username, user, let_in, now, clock)
}

/// The attempts of a user that failed as often as allowed stop every further
/// one, right or wrong, as long as the window lasts.
pub proof fn failed_logins_lock_a_user_out(
    m: Map<Seq<char>, (u32, u64)>,
    key: Seq<char>,
    clock: u64,
)
    requires
        m.dom().contains(key),
        m[key].0 >= 5,
        !throttle::is_over(m[key].1, clock, 300_000),
    ensures
        throttle::count_of(throttle::current(m, clock, 300_000), key) >= 5,
{
}

/// The parts of a cookie header.
pub open spec fn cookie_in(parts: Seq<Seq<char>>, name: Seq<char>) -> Option<Seq<char>>
    decreases parts.len(),
{
    if parts.len() == 0 {
        None
    } else {
        let p = text::trimmed(parts[0]);
        if p.contains('=') && text::before(p, '=') == name {
            Some(text::after(p, '='))
        } else {
            cookie_in(parts.drop_first(), name)
        }
    }
}

/// The value of the first cookie of a name in a header.
pub fn cookie_value(header: &Option<String>, name: &str) -> (r: Option<String>)
    ensures
        match header {
            None => r is None,
            Some(h) => match cookie_in(text::pieces(h@, ';'), name@) {
                Some(v) => r is Some && r->0@ == v,
                None => r is None,
            },
        },
{
    let h = match header {
        Some(h) => text::chars_of(h.as_str()),
        None => return None,
    };
    let parts = text::split(h.as_slice(), ';');
    let ghost all = text::pieces(h@, ';');
    let mut i: usize = 0;
    assert(all.skip(0) =~= all);
    while i < parts.len()
        invariant
            i <= parts@.len(),
            all == text::pieces(h@, ';'),
            header matches Some(t) && t@ == h@,
            parts@.len() == all.len(),
            forall|k: int| 0 <= k < parts@.len() ==> (#[trigger] parts@[k])@ == all[k],
            cookie_in(all, name@) == cookie_in(all.skip(i as int), name@),
        decreases parts@.len() - i,
    {
        assert(all.skip(i as int).drop_first() =~= all.skip(i + 1));
        assert(all.skip(i as int)[0] == all[i as int]);
        let p = text::trim(parts[i]);
        let at = text::find(p, '=');
        proof {
            text::lemma_first_at(p@, '=');
        }
        if at < p.len() {
            let key = vstd::slice::slice_subrange(p, 0, at);
            let value = vstd::slice::slice_subrange(p, at + 1, p.len());
            assert(key@ =~= text::before(p@, '='));
            assert(value@ =~= text::after(p@, '='));
            if text::is(key, name) {
                return Some(text::string_of(value));
            }
        }
        i = i + 1;
    }
    None
}

/// Whether a user may administer.
pub open spec fn administers(user: Option<UserRecord>) -> bool {
    match user {
        Some(u) => u.administrator && !u.disabled,
        None => false,
    }
}

pub fn is_administrator(user: &Option<UserRecord>) -> (r: bool)
    ensures
        r == administers(*user),
{
    match user {
        Some(u) => u.administrator && !u.disabled,
        None => false,
    }
}

/// Whether a session lasts.
pub open spec fn lasts(session: Option<SessionRecord>, now: i64) -> bool {
    match session {
        Some(s) => match s.expires_at {
            Some(at) => at > now,
            None => false,
        },
        None => false,
    }
}

pub fn session_lasts(session: &Option<SessionRecord>, now: i64) -> (r: bool)
    ensures
        r == lasts(*session, now),
{
    match session {
        Some(s) => match s.expires_at {
            Some(at) => at > now,
            None => false,
        },
        None => false,
    }
}

/// Whether a method changes something.
pub open spec fn mutates(method: Seq<char>) -> bool {
    method == "POST"@ || method == "PUT"@ || method == "PATCH"@ || method == "DELETE"@
}

/// What a request to the control plane comes to.
#[derive(Debug, Clone, Copy, PartialEq, Eq, Structural)]
pub enum SessionVerdict {
    /// The user has to log in.
    Login,
    /// The user may not administer.
    NotAdministrator,
    /// The token against forged requests is missing or wrong.
    InvalidCsrf,
    Allowed,
}

/// What a request to the control plane comes to.
pub open spec fn session_verdict(
    token: Option<String>,
    session: Option<SessionRecord>,
    user: Option<UserRecord>,
    method: Seq<char>,
    csrf: Option<String>,
    now: i64,
) -> SessionVerdict {
    if token is None || !lasts(session, now) {
        SessionVerdict::Login
    } else if !administers(user) {
        SessionVerdict::NotAdministrator
    } else if mutates(method) && !(csrf is Some && (csrf->0)@ == (session->0).csrf_token@) {
        SessionVerdict::InvalidCsrf
    } else {
        SessionVerdict::Allowed
    }
}

/// An administrator with a session that lasts may read without more, and change
/// things with the session's own token; nobody else may do either.
pub proof fn an_administrator_is_let_through(
    token: Option<String>,
    s: SessionRecord,
    u: UserRecord,
    method: Seq<char>,
    csrf: Option<String>,
    now: i64,
)
    ensures
        ({
            let v = session_verdict(token, Some(s), Some(u), method, csrf, now);
            let logged_in = token is Some && (s.expires_at matches Some(at) && now < at);
            let changes = method == "POST"@ || method == "PUT"@ || method == "PATCH"@ || method == "DELETE"@;
            let own = csrf matches Some(c) && c@ == s.csrf_token@;
            &&& !logged_in ==> v == SessionVerdict::Login
            &&& logged_in && !(u.administrator && !u.disabled) ==> v == SessionVerdict::NotAdministrator
            &&& logged_in && u.administrator && !u.disabled && !changes ==> v == SessionVerdict::Allowed
            &&& logged_in && u.administrator && !u.disabled && changes && own ==> v == SessionVerdict::Allowed
            &&& logged_in && u.administrator && !u.disabled && changes && !own ==> v == SessionVerdict::InvalidCsrf
        }),
        session_verdict(token, None, Some(u), method, csrf, now) == SessionVerdict::Login,
        session_verdict(token, Some(s), None, method, csrf, now) != SessionVerdict::Allowed,
{
}

/// Decides on a request: it needs a session that lasts, of a user who
/// administers, and the session's own token if it changes something.
pub fn require_session(
    token: &Option<String>,
    session: &Option<SessionRecord>,
    user: &Option<UserRecord>,
    method: &str,
    csrf: &Option<String>,
    now: i64,
) -> (r: SessionVerdict)
    ensures
        r == if token is None || !lasts(*session, now) {
            SessionVerdict::Login
        } else if !administers(*user) {
            SessionVerdict::NotAdministrator
        } else if mutates(method@) && !(csrf is Some && (csrf->0)@ == (session->0).csrf_token@) {
            SessionVerdict::InvalidCsrf
        } else {
            SessionVerdict::Allowed
        },
        r == session_verdict(*token, *session, *user, method@, *csrf, now),
{
    if token.is_none() || !session_lasts(session, now) {
        return SessionVerdict::Login;
    }
    if !is_administrator(user) {
        return SessionVerdict::NotAdministrator;
    }
    let changes = text::str_eq(method, "POST") || text::str_eq(method, "PUT") || text::str_eq(method, "PATCH")
        || text::str_eq(method, "DELETE");
    if changes {
        let matches = match (csrf, session) {
            (Some(given), Some(s)) => text::str_eq(given.as_str(), s.csrf_token.as_str()),
            _ => false,
        };
        if !matches {
            return SessionVerdict::InvalidCsrf;
        }
    }
    SessionVerdict::Allowed
}

/// Why a password is not changed.
#[derive(Debug, Clone, Copy, PartialEq, Eq, Structural)]
pub enum PasswordChangeError {
    NoUser,
    WrongPassword,
    Unusable(auth::PasswordError),
}

/// Changes a user's password, once the current one is shown to be known.
pub fn change_password(user: Option<UserRecord>, current_password: &str, new_password: &str) -> (r: Result<
    UserRecord,
    PasswordChangeError,
>)
    ensures
        match user {
            None => r matches Err(e) && e == PasswordChangeError::NoUser,
            Some(u) => if !crypto::argon2_accepts(u.password_hash@, vstd::utf8::encode_utf8(current_password@)) {
                r matches Err(e) && e == PasswordChangeError::WrongPassword
            } else if vstd::utf8::encode_utf8(new_password@).len() < auth::MIN_PASSWORD_BYTES {
                r matches Err(e) && e == PasswordChangeError::Unusable(auth::PasswordError::TooShort)
            } else {
                match r {
                    Ok(n) => crypto::argon2_accepts(n.password_hash@, vstd::utf8::encode_utf8(new_password@)) && n == (
                    UserRecord { password_hash: n.password_hash, ..u }),
                    Err(e) => e == PasswordChangeError::Unusable(auth::PasswordError::NotHashed)
                        && vstd::utf8::encode_utf8(new_password@).len() > 0xffff_ffff,
                }
            },
        },
{
    let mut u = match user {
        Some(u) => u,
        None => return Err(PasswordChangeError::NoUser),
    };
    if !auth::verify_password(u.password_hash.as_str(), current_password) {
        return Err(PasswordChangeError::WrongPassword);
    }
    match auth::hash_password(new_password) {
        Ok(h) => {
            u.password_hash = h;
            Ok(u)
        },
        Err(e) => Err(PasswordChangeError::Unusable(e)),
    }
}

/// A cookie is found by its name wherever it stands among others, with white
/// space around it or not; the first of its name counts.
pub proof fn a_cookie_is_found_by_its_name(
    before: Seq<Seq<char>>,
    a: Seq<char>,
    name: Seq<char>,
    value: Seq<char>,
    b: Seq<char>,
    behind: Seq<Seq<char>>,
)
    requires
        forall|i: int|
            0 <= i < before.len() ==> text::before(text::trimmed(#[trigger] before[i]), '=') != name || !text::trimmed(
                before[i],
            ).contains('='),
        forall|i: int| 0 <= i < a.len() ==> text::is_ws(#[trigger] a[i]),
        forall|i: int| 0 <= i < b.len() ==> text::is_ws(#[trigger] b[i]),
        name.len() > 0,
        !text::is_ws(name[0]),
        !name.contains('='),
        value.len() > 0 ==> !text::is_ws(value.last()),
    ensures
        cookie_in(before + (seq![a + (name.push('=') + value) + b] + behind), name) == Some(value),
    decreases before.len(),
{
    let p = name.push('=') + value;
    let part = a + p + b;
    let all = before + (seq![part] + behind);
    if before.len() > 0 {
        assert(all[0] == before[0]);
        let rest = before.drop_first();
        assert(all.drop_first() =~= rest + (seq![part] + behind));
        assert forall|i: int| 0 <= i < rest.len() implies text::before(text::trimmed(#[trigger] rest[i]), '=') != name
            || !text::trimmed(rest[i]).contains('=') by {
            assert(rest[i] == before[i + 1]);
        }
        a_cookie_is_found_by_its_name(rest, a, name, value, b, behind);
    } else {
        assert(all[0] == part);
        assert(p[0] == name[0]);
        assert(p.last() == if value.len() > 0 {
            value.last()
        } else {
            '='
        });
        text::trimming_takes_off_white_space_alone(a, p, b);
        assert(p[name.len() as int] == '=');
        assert forall|k: int| 0 <= k < name.len() implies p[k] != '=' by {
            assert(p[k] == name[k]);
            assert(name.contains(name[k]));
        }
        text::lemma_first_at_is(p, '=', name.len() as int);
        assert(text::before(p, '=') =~= name);
        assert(text::after(p, '=') =~= value);
    }
}

/// A user with the right password is let in whatever the case of the name and
/// the white space around it are counted as, and a login that is let in clears
/// what was counted against the user.
pub proof fn a_login_clears_what_was_counted(m: Map<Seq<char>, (u32, u64)>, key: Seq<char>, other: Seq<char>, clock: u64)
    requires
        key != other,
    ensures
        throttle::count_of(after_login(m, key, true, clock), key) == 0,
        throttle::count_of(m, key) < u32::MAX ==> throttle::count_of(after_login(m, key, false, clock), key)
            == throttle::count_of(m, key) + 1,
        throttle::count_of(after_login(m, key, true, clock), other) == throttle::count_of(m, other),
        throttle::count_of(after_login(m, key, false, clock), other) == throttle::count_of(m, other),
{
}

/// A session lasts for twelve hours from its login.
pub proof fn a_session_lasts_twelve_hours(s: SessionRecord, token: Seq<char>, username: Seq<char>, login: i64, now: i64)
    requires
        session_is(s, token, username, login),
        0 <= login <= i64::MAX - 43200,
    ensures
        lasts(Some(s), now) <==> now < login + 12 * 3600,
{
}

/// A user who is there, not disabled and has the password is let in, and nobody
/// else.
pub proof fn the_right_password_lets_a_user_in(u: UserRecord, password: Seq<char>)
    ensures
        lets_in(Some(u), password) <==> !u.disabled && crypto::argon2_accepts(
            u.password_hash@,
            vstd::utf8::encode_utf8(password),
        ),
        !lets_in(None, password),
{
}

/// A user who knows the current password changes it to any that is long enough;
/// the new one is the one that counts then, and nothing else of the user
/// changes.
pub proof fn a_known_password_can_be_changed(
    user: UserRecord,
    current_password: &str,
    new_password: &str,
    r: Result<UserRecord, PasswordChangeError>,
)
    requires
        call_ensures(change_password, (Some(user), current_password, new_password), r),
    ensures
        ({
            let known = crypto::argon2_accepts(user.password_hash@, vstd::utf8::encode_utf8(current_password@));
            let n = vstd::utf8::encode_utf8(new_password@).len();
            &&& known && 12 <= n <= 0xffff_ffff ==> r is Ok
            &&& r is Ok ==> known && n >= 12
            &&& !known <==> r == Err::<UserRecord, PasswordChangeError>(PasswordChangeError::WrongPassword)
        }),
        r is Ok ==> crypto::argon2_accepts((r->Ok_0).password_hash@, vstd::utf8::encode_utf8(new_password@)) && (
        r->Ok_0).username == user.username && (r->Ok_0).administrator == user.administrator && (r->Ok_0).disabled
            == user.disabled,
{
}

/// The right password lets a user in who did not fail five times in the last
/// five minutes, and clears what was counted; a wrong one counts.
pub proof fn a_login_is_decided_by_the_password(
    attempts: &mut Throttle,
    username: &str,
    password: &str,
    user: Option<UserRecord>,
    now: i64,
    clock: u64,
    r: LoginAnswer,
)
    requires
        call_ensures(login, (attempts, username, password, &user, now, clock), r),
    ensures
        ({
            let m = throttle::current(old(attempts)@, clock, 300_000);
            let free = throttle::count_of(m, login_key(username@)) < 5;
            let right = user is Some && !(user->0).disabled && crypto::argon2_accepts(
                (user->0).password_hash@,
                vstd::utf8::encode_utf8(password@),
            );
            &&& r is LoggedIn <==> free && right
            &&& r is Refused <==> free && !right
            &&& r is TooManyAttempts <==> !free
        }),
{
}

/// Logins of a user are counted together, whatever the case of the name and the
/// white space around it.
pub proof fn logins_are_counted_under_one_name(a: Seq<char>, name: Seq<char>, b: Seq<char>)
    requires
        forall|i: int| 0 <= i < a.len() ==> text::is_ws(#[trigger] a[i]),
        forall|i: int| 0 <= i < b.len() ==> text::is_ws(#[trigger] b[i]),
        name.len() > 0 ==> !text::is_ws(name[0]) && !text::is_ws(name.last()),
    ensures
        login_key(a + name + b) == text::lower(name),
{
    text::trimming_takes_off_white_space_alone(a, name, b);
}

} // verus!
