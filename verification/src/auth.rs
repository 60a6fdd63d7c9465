//! Request authentication by bearer token, and the cross-origin policy.

use vstd::prelude::*;

use crate::model::opt_text;
use crate::text::{opt_str, strip_prefix};

verus! {

/// The value that the `Authorization` header must have for `token`.
pub open spec fn bearer(token: Seq<char>) -> Seq<char> {
    "Bearer "@ + token
}

/// Whether a request passes. Without a configured token every request
/// passes; with one, only a request whose `Authorization` header is exactly
/// the bearer value of that token.
pub open spec fn admitted(token: Option<Seq<char>>, authorization: Option<Seq<char>>) -> bool {
    match token {
        Some(token) => authorization == Some(bearer(token)),
        None => true,
    }
}

fn check(token: &Option<String>, authorization: Option<&str>) -> (ok: bool)
    ensures
        ok == admitted(opt_text(*token), opt_str(authorization)),
{
    match token {
        Some(token) => match authorization {
            Some(value) => {
                let mut expected = "Bearer ".to_owned();
                expected.append(token.as_str());
                value.to_owned() == expected
            },
            None => false,
        },
        None => true,
    }
}

/// True where `path` starts with one of `open_paths`: such a request needs
/// no token.
pub open spec fn is_open(open_paths: Seq<Seq<char>>, path: Seq<char>) -> bool {
    exists|i: int| 0 <= i < open_paths.len() && (#[trigger] open_paths[i]).is_prefix_of(path)
}

/// A token check as plain mathematical data.
pub struct AuthView {
    /// The configured token, if there is one.
    pub token: Option<Seq<char>>,
    /// The path prefixes that are served without a token.
    pub open_paths: Seq<Seq<char>>,
}

/// Whether a request for `path` passes: it does where the path is open, or
/// where its `Authorization` header is admitted.
pub open spec fn admitted_at(auth: AuthView, path: Seq<char>, authorization: Option<Seq<char>>) -> bool {
    is_open(auth.open_paths, path) || admitted(auth.token, authorization)
}

fn check_at(token: &Option<String>, open_paths: &Vec<String>, path: &str, authorization: Option<&str>) -> (ok:
    bool)
    ensures
        ok == admitted_at(
            AuthView { token: opt_text(*token), open_paths: open_paths.deep_view() },
            path@,
            opt_str(authorization),
        ),
{
    let ghost prefixes = open_paths.deep_view();
    let mut i: usize = 0;
    while i < open_paths.len()
        invariant
            i <= open_paths.len(),
            prefixes == open_paths.deep_view(),
            forall|k: int| 0 <= k < i ==> !(#[trigger] prefixes[k]).is_prefix_of(path@),
        decreases open_paths.len() - i,
    {
        if strip_prefix(path, open_paths[i].as_str()).is_some() {
            assert(prefixes[i as int].is_prefix_of(path@));
            return true;
        }
        i += 1;
    }
    check(token, authorization)
}

fn clone_all(items: &Vec<String>) -> (out: Vec<String>)
    ensures
        out.deep_view() == items.deep_view(),
{
    let mut out: Vec<String> = Vec::new();
    let mut i: usize = 0;
    while i < items.len()
        invariant
            i <= items.len(),
            out.len() == i,
            forall|k: int| 0 <= k < i ==> (#[trigger] out[k])@ == items[k]@,
        decreases items.len() - i,
    {
        out.push(items[i].clone());
        i += 1;
    }
    assert(out.deep_view() =~= items.deep_view());
    out
}

/// The token check, as configured for the process.
#[derive(Debug)]
pub struct TokenAuth {
    token: Option<String>,
    open_paths: Vec<String>,
}

impl View for TokenAuth {
    type V = AuthView;

    closed spec fn view(&self) -> AuthView {
        AuthView { token: opt_text(self.token), open_paths: self.open_paths.deep_view() }
    }
}

impl TokenAuth {
    /// A check against `token` on every path; no check where `token` is
    /// absent.
    pub fn new(token: Option<String>) -> (out: Self)
        ensures
            out@ == (AuthView { token: opt_text(token), open_paths: Seq::empty() }),
    {
        let open_paths: Vec<String> = Vec::new();
        assert(open_paths.deep_view() =~= Seq::<Seq<char>>::empty());
        TokenAuth { token, open_paths }
    }

    /// The same check, with the paths under `prefix` served without a
    /// token.
    pub fn exempting(self, prefix: &str) -> (out: Self)
        ensures
            out@ == (AuthView { token: self@.token, open_paths: self@.open_paths.push(prefix@) }),
    {
        let mut open_paths = self.open_paths;
        let ghost before = open_paths.deep_view();
        open_paths.push(prefix.to_owned());
        assert(open_paths.deep_view() =~= before.push(prefix@));
        TokenAuth { token: self.token, open_paths }
    }

    /// Decides on a request by its `Authorization` header alone.
    pub fn admits(&self, authorization: Option<&str>) -> (ok: bool)
        ensures
            ok == admitted(self@.token, opt_str(authorization)),
    {
        check(&self.token, authorization)
    }

    /// Decides on a request by its path and its `Authorization` header.
    pub fn admits_request(&self, path: &str, authorization: Option<&str>) -> (ok: bool)
        ensures
            ok == admitted_at(self@, path@, opt_str(authorization)),
    {
        check_at(&self.token, &self.open_paths, path, authorization)
    }

    /// Puts the check in front of `service`.
    pub fn new_transform<S>(&self, service: S) -> (out: TokenAuthMiddleware<S>)
        ensures
            out.auth() == self@,
            *out.service() == service,
    {
        TokenAuthMiddleware { service, token: self.token.clone(), open_paths: clone_all(&self.open_paths) }
    }
}

/// A service behind the token check.
pub struct TokenAuthMiddleware<S> {
    service: S,
    token: Option<String>,
    open_paths: Vec<String>,
}

impl<S> TokenAuthMiddleware<S> {
    /// The check that guards the service.
    pub closed spec fn auth(&self) -> AuthView {
        AuthView { token: opt_text(self.token), open_paths: self.open_paths.deep_view() }
    }

    /// The service that admitted requests are handed to.
    #[verifier::when_used_as_spec(spec_service)]
    pub fn service(&self) -> (out: &S)
        ensures
            out == self.spec_service(),
    {
        &self.service
    }

    pub closed spec fn spec_service(&self) -> &S {
        &self.service
    }

    /// Decides on a request by its `Authorization` header alone.
    pub fn admits(&self, authorization: Option<&str>) -> (ok: bool)
        ensures
            ok == admitted(self.auth().token, opt_str(authorization)),
    {
        check(&self.token, authorization)
    }

    /// Decides on a request by its path and its `Authorization` header. A
    /// request that does not pass is answered as unauthorized and never
    /// reaches the service.
    pub fn admits_request(&self, path: &str, authorization: Option<&str>) -> (ok: bool)
        ensures
            ok == admitted_at(self.auth(), path@, opt_str(authorization)),
    {
        check_at(&self.token, &self.open_paths, path, authorization)
    }
}

/// What browsers are told about cross-origin requests.
#[derive(Debug)]
pub struct CorsPolicy {
    pub allowed_origins: Vec<String>,
    pub allowed_methods: Vec<String>,
    pub allowed_headers: Vec<String>,
    /// How long a preflight answer may be cached, in seconds.
    pub max_age: u32,
}

/// The origins of the desktop shell that embeds the backends.
pub open spec fn trusted_origins() -> Seq<Seq<char>> {
    seq!["null"@, "tauri://localhost"@, "https://tauri.localhost"@, "http://tauri.localhost"@]
}

/// The request methods of the protocol.
pub open spec fn trusted_methods() -> Seq<Seq<char>> {
    seq!["GET"@, "POST"@]
}

/// The request headers of the protocol.
pub open spec fn trusted_headers() -> Seq<Seq<char>> {
    seq!["authorization"@, "accept"@, "content-type"@]
}

fn push_word(list: &mut Vec<String>, word: &str)
    ensures
        final(list).deep_view() == old(list).deep_view().push(word@),
{
    list.push(word.to_owned());
    assert(list.deep_view() =~= old(list).deep_view().push(word@));
}

/// The middleware that every backend installs.
pub struct Middleware;

impl Middleware {
    /// The token check for the configured token, on every path.
    pub fn token_auth(token: Option<String>) -> (out: TokenAuth)
        ensures
            out@ == (AuthView { token: opt_text(token), open_paths: Seq::empty() }),
    {
        TokenAuth::new(token)
    }

    /// The fixed cross-origin policy: the shell's origins, `GET` and
    /// `POST`, the three headers of the protocol, one hour of caching.
    pub fn cors() -> (out: CorsPolicy)
        ensures
            out.allowed_origins.deep_view() == trusted_origins(),
            out.allowed_methods.deep_view() == trusted_methods(),
            out.allowed_headers.deep_view() == trusted_headers(),
            out.max_age == 3600,
    {
        let mut allowed_origins: Vec<String> = Vec::new();
        assert(allowed_origins.deep_view() =~= Seq::<Seq<char>>::empty());
        push_word(&mut allowed_origins, "null");
        push_word(&mut allowed_origins, "tauri://localhost");
        push_word(&mut allowed_origins, "https://tauri.localhost");
        push_word(&mut allowed_origins, "http://tauri.localhost");
        assert(allowed_origins.deep_view() =~= trusted_origins());
        let mut allowed_methods: Vec<String> = Vec::new();
        assert(allowed_methods.deep_view() =~= Seq::<Seq<char>>::empty());
        push_word(&mut allowed_methods, "GET");
        push_word(&mut allowed_methods, "POST");
        assert(allowed_methods.deep_view() =~= trusted_methods());
        let mut allowed_headers: Vec<String> = Vec::new();
        assert(allowed_headers.deep_view() =~= Seq::<Seq<char>>::empty());
        push_word(&mut allowed_headers, "authorization");
        push_word(&mut allowed_headers, "accept");
        push_word(&mut allowed_headers, "content-type");
        assert(allowed_headers.deep_view() =~= trusted_headers());
        CorsPolicy { allowed_origins, allowed_methods, allowed_headers, max_age: 3600 }
    }
}

} // verus!
