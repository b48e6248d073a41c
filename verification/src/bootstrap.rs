//! The one-time setup: who may complete it, and with what. Clocks count
//! milliseconds.
use vstd::prelude::*;
use crate::acme_challenge;
use crate::acme_types::ControlPlaneConfig;
use crate::auth;
use crate::auth::UserRecord;
use crate::bytes;
use crate::certificate;
use crate::crypto;
use crate::issue;
use crate::issue::Issued;
use crate::net;
use crate::text;
use crate::x509;

verus! {

pub const RANDOM_PORT_START: u16 = 40000;

pub const RANDOM_PORT_END: u16 = 50000;

/// Thirty minutes.
pub const DEFAULT_TOKEN_LIFETIME: u64 = 1800000;

/// Five minutes.
pub const ATTEMPT_WINDOW: u64 = 300000;

pub const MAX_FAILED_ATTEMPTS: u32 = 20;

pub const MIN_TOKEN_BYTES: usize = 32;

pub const MAX_USERNAME_BYTES: usize = 128;

#[derive(Debug)]
pub struct SetupOptions {
    pub bind_address: String,
    pub requested_port: Option<u16>,
    pub token: Option<String>,
    pub token_lifetime: u64,
}

impl Default for SetupOptions {
    fn default() -> (r: SetupOptions)
        ensures
            r.bind_address@ == "127.0.0.1"@,
            r.requested_port is None,
            r.token is None,
            r.token_lifetime == DEFAULT_TOKEN_LIFETIME,
    {
        SetupOptions {
            bind_address: text::owned("127.0.0.1"),
            requested_port: None,
            token: None,
            token_lifetime: DEFAULT_TOKEN_LIFETIME,
        }
    }
}

#[derive(Debug)]
pub struct SetupRequest {
    pub token: String,
    pub username: String,
    pub password: String,
    pub control_hostname: String,
    pub self_ips: Vec<String>,
    pub provider_id: String,
}

/// The provider that is used where none is named.
pub fn default_provider() -> (r: String)
    ensures
        r@ == "letsencrypt-production"@,
{
    text::owned("letsencrypt-production")
}

/// Why setup is refused.
#[derive(Debug, Clone, Copy, PartialEq, Eq, Structural)]
pub enum SetupError {
    AlreadyComplete,
    TokenTooShort,
    TokenExpired,
    InvalidToken,
    InvalidUsername,
    InvalidHostname,
    InvalidSelfIp,
    PasswordTooShort,
    PasswordNotHashed,
}

impl SetupError {
    pub open spec fn text(self) -> Seq<char> {
        match self {
            SetupError::AlreadyComplete => "initial setup is already complete"@,
            SetupError::TokenTooShort => "setup token must contain at least 32 bytes"@,
            SetupError::TokenExpired => "setup token has expired; restart the service to generate another token"@,
            SetupError::InvalidToken => "invalid setup token"@,
            SetupError::InvalidUsername => "administrator username is required and must not exceed 128 characters"@,
            SetupError::InvalidHostname => "invalid control hostname"@,
            SetupError::InvalidSelfIp => "invalid IP address syntax"@,
            SetupError::PasswordTooShort => "password must contain at least 12 bytes"@,
            SetupError::PasswordNotHashed => "password cannot be hashed"@,
        }
    }

    pub fn message(self) -> (r: &'static str)
        ensures
            r@ == self.text(),
    {
        match self {
            SetupError::AlreadyComplete => "initial setup is already complete",
            SetupError::TokenTooShort => "setup token must contain at least 32 bytes",
            SetupError::TokenExpired => "setup token has expired; restart the service to generate another token",
            SetupError::InvalidToken => "invalid setup token",
            SetupError::InvalidUsername => "administrator username is required and must not exceed 128 characters",
            SetupError::InvalidHostname => "invalid control hostname",
            SetupError::InvalidSelfIp => "invalid IP address syntax",
            SetupError::PasswordTooShort => "password must contain at least 12 bytes",
            SetupError::PasswordNotHashed => "password cannot be hashed",
        }
    }
}

/// A setup that is open: what its token hashes to and until when it is good,
/// and how often it was tried in vain.
pub struct SetupState {
    pub token_digest: Vec<u8>,
    pub expires_at: u64,
    pub failed_attempts: u32,
    pub window_start: u64,
}

/// What a setup is opened with: the state, and the token to show.
pub struct PreparedSetup {
    pub state: SetupState,
    pub token: String,
}

/// Opens a setup: only once, with the given token or a fresh one.
pub fn prepare(initialized: bool, options: &SetupOptions, now: u64) -> (r: Result<PreparedSetup, SetupError>)
    requires
        now + options.token_lifetime <= u64::MAX,
    ensures
        initialized ==> (r matches Err(e) && e == SetupError::AlreadyComplete),
        !initialized ==> match options.token {
            Some(t) => if vstd::utf8::encode_utf8(t@).len() < MIN_TOKEN_BYTES {
                r matches Err(e) && e == SetupError::TokenTooShort
            } else {
                r matches Ok(p) && p.token@ == t@
            },
            None => r matches Ok(p) && auth::is_token(p.token@),
        },
        r matches Ok(p) ==> p.state.token_digest@ == crypto::sha256_of(vstd::utf8::encode_utf8(p.token@))
            && p.state.expires_at == now + options.token_lifetime && p.state.failed_attempts == 0 && p.state.window_start == now,
{
    if initialized {
        return Err(SetupError::AlreadyComplete);
    }
    let token = match &options.token {
        Some(t) => {
            if t.as_str().as_bytes().len() < MIN_TOKEN_BYTES {
                return Err(SetupError::TokenTooShort);
            }
            t.clone()
        },
        None => auth::random_token(),
    };
    let token_digest = crypto::sha256(token.as_str().as_bytes());
    Ok(
        PreparedSetup {
            state: SetupState {
                token_digest,
                expires_at: now + options.token_lifetime,
                failed_attempts: 0,
                window_start: now,
            },
            token,
        },
    )
}

/// The TLS identity of the setup page, and what a user compares it by.
#[derive(Debug)]
pub struct SetupIdentity {
    pub issued: Issued,
    /// The SHA-256 digest of the certificate.
    pub fingerprint: String,
}

/// What becomes of a certificate that was made for the setup page, or was not:
/// it is shown by its digest, once it is known to fit its key.
pub fn finish_identity(issued: Option<Issued>) -> (r: Option<SetupIdentity>)
    ensures
        match issued {
            None => r is None,
            Some(c) => if x509::identity_is_consistent(seq![c.der@], vstd::utf8::encode_utf8(c.key_pem@)) {
                r matches Some(i) && i.issued.der@ == c.der@ && i.issued.cert_pem == c.cert_pem && i.issued.key_pem
                    == c.key_pem && i.fingerprint@ == crypto::hex_of(crypto::sha256_of(c.der@))
            } else {
                r is None
            },
        },
{
    let issued = match issued {
        Some(issued) => issued,
        None => return None,
    };
    let mut chain: Vec<Vec<u8>> = Vec::new();
    chain.push(bytes::copy_of(issued.der.as_slice()));
    assert(x509::ders(chain@) =~= seq![issued.der@]);
    if !x509::is_identity(&chain, issued.key_pem.as_str().as_bytes()) {
        return None;
    }
    let digest = crypto::sha256(issued.der.as_slice());
    let fingerprint = crypto::hex_encode(digest.as_slice());
    Some(SetupIdentity { issued, fingerprint })
}

/// Makes the identity of the setup page at an address, for that address and
/// `localhost`. There is none for a text that is not ASCII, nor where the
/// system has no randomness for the key or the signature.
pub fn setup_identity(address: &str) -> (r: Option<SetupIdentity>)
    ensures
        r is Some ==> issue::is_sayable(certificate::san_of(address@)),
        r matches Some(i) ==> {
            &&& i.fingerprint@ == crypto::hex_of(crypto::sha256_of(i.issued.der@))
            &&& x509::alternative_names_of(i.issued.der@) == Some(
                Some(seq![x509::NameModel::Dns("localhost"@), issue::shown_name(certificate::san_of(address@))]),
            )
            &&& x509::first_certificate_of(vstd::utf8::encode_utf8(i.issued.cert_pem@)) == Some(i.issued.der@)
            &&& issue::can_sign(i.issued.cert_pem@, i.issued.key_pem@)
            &&& x509::identity_is_consistent(seq![i.issued.der@], vstd::utf8::encode_utf8(i.issued.key_pem@))
        },
{
    let mut names: Vec<String> = Vec::new();
    names.push(text::owned("localhost"));
    names.push(text::owned(address));
    let issued = issue::simple_self_signed(&names);
    proof {
        reveal_strlit("localhost");
        assert(!net::is_address_char("localhost"@[0]));
        let all = certificate::named(text::views(names@));
        assert(text::views(names@) =~= seq!["localhost"@, address@]);
        assert(all =~= seq![certificate::san_of("localhost"@), certificate::san_of(address@)]);
        if issued is Some {
            assert(all[0] is Dns);
            assert(all[1] == certificate::san_of(address@));
            assert(issue::shown_names(all)->0 =~= seq![
                x509::NameModel::Dns("localhost"@),
                issue::shown_name(certificate::san_of(address@)),
            ]);
        }
    }
    finish_identity(issued)
}

/// What follows an attempt to bind the setup listener.
#[derive(Debug, Clone, Copy, PartialEq, Eq, Structural)]
pub enum PortStep {
    Use,
    TryNext,
    GiveUp,
}

/// Decides after an attempt to bind: a requested port is tried alone, a random
/// one only as long as the ones before were taken.
pub fn after_port(requested: bool, bound: bool, in_use: bool, is_last: bool) -> (r: PortStep)
    ensures
        r == if bound {
            PortStep::Use
        } else if !requested && in_use && !is_last {
            PortStep::TryNext
        } else {
            PortStep::GiveUp
        },
{
    if bound {
        PortStep::Use
    } else if !requested && in_use && !is_last {
        PortStep::TryNext
    } else {
        PortStep::GiveUp
    }
}

/// The ports that are tried where none is requested, before they are shuffled.
pub fn random_ports() -> (r: Vec<u16>)
    ensures
        r@.len() == RANDOM_PORT_END - RANDOM_PORT_START + 1,
        forall|i: int| 0 <= i < r@.len() ==> #[trigger] r@[i] == RANDOM_PORT_START + i,
{
    let mut out: Vec<u16> = Vec::new();
    let mut port: u16 = RANDOM_PORT_START;
    while port <= RANDOM_PORT_END
        invariant
            RANDOM_PORT_START <= port <= RANDOM_PORT_END + 1,
            out@.len() == port - RANDOM_PORT_START,
            forall|i: int| 0 <= i < out@.len() ==> #[trigger] out@[i] == RANDOM_PORT_START + i,
        decreases RANDOM_PORT_END + 1 - port,
    {
        out.push(port);
        port = port + 1;
    }
    out
}

/// The state once a window that is over was closed.
pub open spec fn refreshed(s: SetupState, now: u64) -> SetupState {
    if now >= s.window_start && now - s.window_start >= ATTEMPT_WINDOW {
        SetupState { failed_attempts: 0, window_start: now, ..s }
    } else {
        s
    }
}

/// The administrator and the control plane that a setup creates.
pub struct CompletedSetup {
    pub administrator: UserRecord,
    pub control: ControlPlaneConfig,
}

/// What is wrong with a request before its password is hashed. `self_ips` are
/// its addresses in their textual form, unless one of them is none.
pub open spec fn request_error(
    s: SetupState,
    initialized: bool,
    request: SetupRequest,
    self_ips: Option<Seq<Seq<char>>>,
    now: u64,
) -> Option<SetupError> {
    if initialized {
        Some(SetupError::AlreadyComplete)
    } else if now >= s.expires_at {
        Some(SetupError::TokenExpired)
    } else if crypto::sha256_of(vstd::utf8::encode_utf8(request.token@)) != s.token_digest@ {
        Some(SetupError::InvalidToken)
    } else if text::trimmed(request.username@).len() == 0 || vstd::utf8::encode_utf8(text::trimmed(request.username@)).len()
        > MAX_USERNAME_BYTES {
        Some(SetupError::InvalidUsername)
    } else if acme_challenge::normalized(request.control_hostname@) is None {
        Some(SetupError::InvalidHostname)
    } else if self_ips is None {
        Some(SetupError::InvalidSelfIp)
    } else if vstd::utf8::encode_utf8(request.password@).len() < auth::MIN_PASSWORD_BYTES {
        Some(SetupError::PasswordTooShort)
    } else {
        None
    }
}

fn copy_texts(v: &Vec<String>) -> (r: Vec<String>)
    ensures
        text::views(r@) == text::views(v@),
{
    let mut out: Vec<String> = Vec::new();
    let mut i: usize = 0;
    while i < v.len()
        invariant
            i <= v@.len(),
            out@.len() == i,
            forall|k: int| 0 <= k < i ==> (#[trigger] out@[k])@ == v@[k]@,
        decreases v@.len() - i,
    {
        out.push(v[i].clone());
        i = i + 1;
    }
    assert(text::views(out@) =~= text::views(v@));
    out
}

/// Whether `c` is what a setup request creates: an administrator whose hash
/// accepts the chosen password, and a control plane at the chosen host.
pub open spec fn completed_is(
    c: CompletedSetup,
    request: SetupRequest,
    self_ips: Seq<Seq<char>>,
    now_seconds: i64,
) -> bool {
    &&& c.administrator.username@ == text::trimmed(request.username@)
    &&& crypto::argon2_accepts(
        c.administrator.password_hash@,
        vstd::utf8::encode_utf8(request.password@),
    )
    &&& c.administrator.administrator
    &&& !c.administrator.disabled
    &&& c.administrator.created_at == Some(now_seconds)
    &&& Some(c.control.hostname@) == acme_challenge::normalized(request.control_hostname@)
    &&& text::views(c.control.self_ips@) == self_ips
    &&& c.control.provider_id@ == request.provider_id@
    &&& c.control.public_resolvers@.len() == 0
    &&& !c.control.require_all_resolvers
}

/// Checks a setup request and makes what it creates. `now_seconds` is the time
/// of day.
pub fn complete_setup_inner(
    state: &SetupState,
    initialized: bool,
    request: &SetupRequest,
    self_ips: &Option<Vec<String>>,
    now: u64,
    now_seconds: i64,
) -> (r: Result<CompletedSetup, SetupError>)
    ensures
        match request_error(
            *state,
            initialized,
            *request,
            match self_ips { Some(v) => Some(text::views(v@)), None => None },
            now,
        ) {
            Some(e) => r matches Err(f) && f == e,
            None => match r {
                Ok(c) => completed_is(c, *request, text::views(self_ips->0@), now_seconds),
                Err(e) => e == SetupError::PasswordNotHashed && vstd::utf8::encode_utf8(request.password@).len()
                    > 0xffff_ffff,
            },
        },
{
    if initialized {
        return Err(SetupError::AlreadyComplete);
    }
    if now >= state.expires_at {
        return Err(SetupError::TokenExpired);
    }
    let supplied = crypto::sha256(request.token.as_str().as_bytes());
    if !crypto::constant_time_eq(state.token_digest.as_slice(), supplied.as_slice()) {
        return Err(SetupError::InvalidToken);
    }
    let all = text::chars_of(request.username.as_str());
    let username = text::string_of(text::trim(all.as_slice()));
    let empty = text::trim(all.as_slice()).len() == 0;
    if empty || username.as_str().as_bytes().len() > MAX_USERNAME_BYTES {
        return Err(SetupError::InvalidUsername);
    }
    let hostname = match acme_challenge::normalize_domain(request.control_hostname.as_str()) {
        Ok(h) => h,
        Err(_) => return Err(SetupError::InvalidHostname),
    };
    let ips = match self_ips {
        Some(v) => copy_texts(v),
        None => return Err(SetupError::InvalidSelfIp),
    };
    let password_hash = match auth::hash_password(request.password.as_str()) {
        Ok(h) => h,
        Err(auth::PasswordError::TooShort) => return Err(SetupError::PasswordTooShort),
        Err(auth::PasswordError::NotHashed) => return Err(SetupError::PasswordNotHashed),
    };
    Ok(
        CompletedSetup {
            administrator: UserRecord {
                username,
                password_hash,
                administrator: true,
                created_at: Some(now_seconds),
                disabled: false,
            },
            control: ControlPlaneConfig {
                hostname,
                self_ips: ips,
                public_resolvers: Vec::new(),
                require_all_resolvers: false,
                provider_id: request.provider_id.clone(),
            },
        },
    )
}

/// Whether a setup may be tried now: no more than twenty failures count in a
/// window of five minutes.
pub fn may_try(state: &mut SetupState, now: u64) -> (r: bool)
    ensures
        *final(state) == refreshed(*old(state), now),
        r == (refreshed(*old(state), now).failed_attempts < MAX_FAILED_ATTEMPTS),
{
    if now >= state.window_start && now - state.window_start >= ATTEMPT_WINDOW {
        state.failed_attempts = 0;
        state.window_start = now;
    }
    state.failed_attempts < MAX_FAILED_ATTEMPTS
}

/// The answer to a setup request.
pub enum SetupAnswer {
    /// Too many attempts failed.
    TooManyAttempts,
    Refused(SetupError),
    Completed(CompletedSetup),
}

impl SetupAnswer {
    pub open spec fn code(self) -> u16 {
        match self {
            SetupAnswer::TooManyAttempts => 429,
            SetupAnswer::Refused(_) => 400,
            SetupAnswer::Completed(_) => 201,
        }
    }

    /// The HTTP status of the answer.
    pub fn status(&self) -> (r: u16)
        ensures
            r == self.code(),
    {
        match self {
            SetupAnswer::TooManyAttempts => 429,
            SetupAnswer::Refused(_) => 400,
            SetupAnswer::Completed(_) => 201,
        }
    }
}

/// Answers a setup request, and counts it if it fails.
pub fn complete_setup(
    state: &mut SetupState,
    initialized: bool,
    request: &SetupRequest,
    self_ips: &Option<Vec<String>>,
    now: u64,
    now_seconds: i64,
) -> (r: SetupAnswer)
    ensures
        ({
            let s = refreshed(*old(state), now);
            let error = request_error(
                s,
                initialized,
                *request,
                match self_ips { Some(v) => Some(text::views(v@)), None => None },
                now,
            );
            if s.failed_attempts >= MAX_FAILED_ATTEMPTS {
                r is TooManyAttempts && *final(state) == s
            } else {
                match error {
                    Some(e) => r == SetupAnswer::Refused(e) && *final(state) == (SetupState {
                        failed_attempts: (s.failed_attempts + 1) as u32,
                        ..s
                    }),
                    None => match r {
                        SetupAnswer::Completed(c) => *final(state) == s && completed_is(
                            c,
                            *request,
                            text::views(self_ips->0@),
                            now_seconds,
                        ),
                        SetupAnswer::Refused(e) => {
                            &&& e == SetupError::PasswordNotHashed
                            &&& vstd::utf8::encode_utf8(request.password@).len() > 0xffff_ffff
                            &&& *final(state) == (SetupState {
                                failed_attempts: (s.failed_attempts + 1) as u32,
                                ..s
                            })
                        },
                        SetupAnswer::TooManyAttempts => false,
                    },
                }
            }
        }),
{
    if !may_try(state, now) {
        return SetupAnswer::TooManyAttempts;
    }
    match complete_setup_inner(state, initialized, request, self_ips, now, now_seconds) {
        Ok(c) => SetupAnswer::Completed(c),
        Err(e) => {
            state.failed_attempts = state.failed_attempts + 1;
            SetupAnswer::Refused(e)
        },
    }
}

/// Setup is completed at most once, and never without its token.
pub proof fn setup_needs_its_token(
    s: SetupState,
    initialized: bool,
    request: SetupRequest,
    self_ips: Option<Seq<Seq<char>>>,
    now: u64,
)
    requires
        request_error(s, initialized, request, self_ips, now) is None,
    ensures
        !initialized,
        now < s.expires_at,
        crypto::sha256_of(vstd::utf8::encode_utf8(request.token@)) == s.token_digest@,
{
}

/// A request with the token, in time, for a setup that is still open, with a
/// name, a host, addresses and a password of twelve bytes or more completes it:
/// nothing else is asked for.
pub proof fn a_proper_request_completes_setup(
    s: SetupState,
    request: SetupRequest,
    self_ips: Seq<Seq<char>>,
    now: u64,
)
    requires
        now < s.expires_at,
        s.token_digest@ == crypto::sha256_of(vstd::utf8::encode_utf8(request.token@)),
        text::trimmed(request.username@).len() > 0,
        vstd::utf8::encode_utf8(text::trimmed(request.username@)).len() <= 128,
        acme_challenge::normalized(request.control_hostname@) is Some,
        vstd::utf8::encode_utf8(request.password@).len() >= 12,
    ensures
        request_error(s, false, request, Some(self_ips), now) is None,
{
}

/// Each flaw of a setup request comes out as itself, the first of them first.
pub proof fn every_flaw_of_a_setup_request_is_named(
    s: SetupState,
    initialized: bool,
    request: SetupRequest,
    self_ips: Option<Seq<Seq<char>>>,
    now: u64,
)
    ensures
        ({
            let e = request_error(s, initialized, request, self_ips, now);
            let token = crypto::sha256_of(vstd::utf8::encode_utf8(request.token@)) == s.token_digest@;
            &&& e == Some(SetupError::AlreadyComplete) <==> initialized
            &&& e == Some(SetupError::TokenExpired) <==> !initialized && now >= s.expires_at
            &&& e == Some(SetupError::InvalidToken) <==> !initialized && now < s.expires_at && !token
            &&& e == Some(SetupError::PasswordTooShort) ==> vstd::utf8::encode_utf8(request.password@).len() < 12
            &&& e == Some(SetupError::InvalidHostname) ==> acme_challenge::normalized(request.control_hostname@) is None
            &&& e == Some(SetupError::InvalidSelfIp) ==> self_ips is None
        }),
{
}

/// Failed attempts are forgotten once their window is over, and not before.
pub proof fn attempts_are_forgotten_with_their_window(s: SetupState, now: u64)
    ensures
        now >= s.window_start && now - s.window_start >= 300_000 ==> refreshed(s, now).failed_attempts == 0
            && refreshed(s, now).window_start == now,
        now >= s.window_start && now - s.window_start < 300_000 ==> refreshed(s, now) == s,
        refreshed(s, now).token_digest == s.token_digest && refreshed(s, now).expires_at == s.expires_at,
{
}

/// What a setup creates lets its administrator in: under the name that was
/// given, with the password that was chosen, and not disabled.
pub proof fn a_setup_creates_an_administrator_who_can_log_in(
    c: CompletedSetup,
    request: SetupRequest,
    self_ips: Seq<Seq<char>>,
    now_seconds: i64,
)
    requires
        completed_is(c, request, self_ips, now_seconds),
    ensures
        c.administrator.username@ == text::trimmed(request.username@),
        crypto::argon2_accepts(c.administrator.password_hash@, vstd::utf8::encode_utf8(request.password@)),
        c.administrator.administrator && !c.administrator.disabled,
        acme_challenge::normalized(request.control_hostname@) == Some(c.control.hostname@),
        c.control.provider_id@ == request.provider_id@,
        text::views(c.control.self_ips@) == self_ips,
{
}

/// Where no port is requested every port from 40000 to 50000 may be tried, each
/// once; the next one is tried exactly while the ones before were taken.
pub proof fn every_port_of_the_range_is_tried(ports: Vec<u16>, port: u16, bound: bool, in_use: bool, is_last: bool, r: PortStep)
    requires
        call_ensures(random_ports, (), ports),
        call_ensures(after_port, (false, bound, in_use, is_last), r),
    ensures
        ports@.contains(port) <==> 40000 <= port <= 50000,
        ports@.no_duplicates(),
        r == PortStep::Use <==> bound,
        r == PortStep::TryNext <==> !bound && in_use && !is_last,
{
    if 40000 <= port <= 50000 {
        assert(ports@[port - 40000] == port);
    }
    if ports@.contains(port) {
        let k = choose|k: int| 0 <= k < ports@.len() && ports@[k] == port;
        assert(ports@[k] == 40000 + k);
    }
}

/// A setup is opened exactly once, with the token that is given if it has 32
/// bytes or more, and lasts for as long as it is given.
pub proof fn a_setup_is_opened_once(
    initialized: bool,
    options: SetupOptions,
    now: u64,
    r: Result<PreparedSetup, SetupError>,
)
    requires
        call_ensures(prepare, (initialized, &options, now), r),
        now + options.token_lifetime <= u64::MAX,
    ensures
        initialized ==> r is Err,
        !initialized && options.token is None ==> r is Ok,
        !initialized && options.token is Some ==> (r is Ok <==> vstd::utf8::encode_utf8((options.token->0)@).len()
            >= 32),
        r is Ok && options.token is Some ==> (r->Ok_0).token@ == (options.token->0)@,
        r is Ok ==> (r->Ok_0).state.expires_at == now + options.token_lifetime && (r->Ok_0).state.failed_attempts == 0,
{
}

/// Nothing but a proper request completes a setup.
pub proof fn only_a_proper_request_completes_setup(
    s: SetupState,
    initialized: bool,
    request: SetupRequest,
    self_ips: Option<Seq<Seq<char>>>,
    now: u64,
)
    requires
        request_error(s, initialized, request, self_ips, now) is None,
    ensures
        !initialized,
        now < s.expires_at,
        s.token_digest@ == crypto::sha256_of(vstd::utf8::encode_utf8(request.token@)),
        0 < text::trimmed(request.username@).len(),
        vstd::utf8::encode_utf8(text::trimmed(request.username@)).len() <= 128,
        acme_challenge::normalized(request.control_hostname@) is Some,
        vstd::utf8::encode_utf8(request.password@).len() >= 12,
        self_ips is Some,
{
}

/// A setup answers twenty failed attempts in five minutes, and each of them
/// counts; the right request completes it at any of them, and counts for
/// nothing.
pub proof fn a_setup_counts_what_fails(
    state: &mut SetupState,
    request: SetupRequest,
    self_ips: Vec<String>,
    now: u64,
    now_seconds: i64,
    r: SetupAnswer,
)
    requires
        call_ensures(complete_setup, (state, false, &request, &Some(self_ips), now, now_seconds), r),
        now >= old(state).window_start && now - old(state).window_start < 300_000,
        vstd::utf8::encode_utf8(request.password@).len() <= 0xffff_ffff,
    ensures
        r is TooManyAttempts <==> old(state).failed_attempts >= 20,
        r is Refused ==> final(state).failed_attempts == old(state).failed_attempts + 1,
        r is Completed ==> final(state).failed_attempts == old(state).failed_attempts,
        r is Completed <==> old(state).failed_attempts < 20 && request_error(
            *old(state),
            false,
            request,
            Some(text::views(self_ips@)),
            now,
        ) is None,
        final(state).token_digest == old(state).token_digest,
        final(state).expires_at == old(state).expires_at,
{
}

} // verus!
