//! The cloud side: the held credential, the sign-in exchange and the roster
//! request, and the entry point of address resolution.
use crate::devices::{
    dedupe_by_location, device_views, message_views, resolve, resolve_devices, BambuDevice,
};
use crate::json::{json_quote, json_string_of};
use crate::ssdp::{SsdpListener, SsdpMessage};
use crate::text::{
    chars_of, decimal_text, push_decimal, find, find_from, find_in_range, range_starts_with, starts_with, string_of, trim,
    trim_range,
};
use vstd::prelude::*;
use vstd::string::*;

verus! {

pub const BAMBU_API_URL: &'static str = "https://api.bambulab.com";

pub const BAMBU_LOGIN_URL: &'static str = "https://bambulab.com/api/sign-in/form";

/// Path of the roster endpoint under `BAMBU_API_URL`.
pub const BAMBU_DEVICES_PATH: &'static str = "/v1/iot-service/api/user/bind";

/// Seconds that discovery listens on each port.
pub const DISCOVERY_WINDOW_SECS: u64 = 5;

/// The tokens that sign-in hands out.
pub struct BambuUserResponse {
    pub token: String,
    pub refresh_token: String,
}

/// Why sign-in failed.
pub enum BambuLoginError {
    /// The request did not reach the service or no answer came back.
    Transport(String),
    /// The service answered with a status outside 200..=299.
    Rejected { status: u16, body: String },
}

/// Why the roster could not be fetched.
pub enum FetchError {
    /// No credential is held.
    Unauthenticated,
    /// The request did not reach the service or no answer came back.
    Transport(String),
    /// The service answered with a status outside 200..=299.
    BadResponse { status: u16, body: String },
    /// The body is not a roster.
    Decode(String),
}

/// A status code in the success class.
pub open spec fn is_success(status: u16) -> bool {
    200 <= status && status <= 299
}

/// The pieces of `s` between occurrences of `c`, from index `i` on, as
/// `str::split` yields them.
pub open spec fn split_from(s: Seq<char>, c: char, i: int) -> Seq<Seq<char>>
    decreases s.len() + 1 - i,
    via split_from_decreases
{
    if i < 0 || i > s.len() {
        Seq::empty()
    } else {
        let e = find_from(s, c, i);
        if e < s.len() {
            seq![s.subrange(i, e)] + split_from(s, c, e + 1)
        } else {
            seq![s.subrange(i, s.len() as int)]
        }
    }
}

#[via_fn]
proof fn split_from_decreases(s: Seq<char>, c: char, i: int) {
    if 0 <= i <= s.len() {
        crate::ssdp::lemma_find_from_bounds(s, c, i);
    }
}

/// The text after `prefix` in `cookie`, up to the next `=`: the second piece
/// when the cookie is split at `=`.
pub open spec fn cookie_value(cookie: Seq<char>, prefix: Seq<char>) -> Seq<char> {
    let rest = cookie.subrange(prefix.len() as int, cookie.len() as int);
    rest.subrange(0, find(rest, '='))
}

/// The tokens after one cookie: `token=` sets the token, `refreshToken=` the
/// refresh token, anything else changes nothing.
pub open spec fn apply_cookie(st: (Seq<char>, Seq<char>), cookie: Seq<char>) -> (
    Seq<char>,
    Seq<char>,
) {
    if starts_with(cookie, "token="@) {
        (cookie_value(cookie, "token="@), st.1)
    } else if starts_with(cookie, "refreshToken="@) {
        (st.0, cookie_value(cookie, "refreshToken="@))
    } else {
        st
    }
}

/// The tokens after the `;`-separated pieces of one header value; each piece
/// is trimmed and empty ones are skipped.
pub open spec fn apply_pieces(st: (Seq<char>, Seq<char>), pieces: Seq<Seq<char>>) -> (
    Seq<char>,
    Seq<char>,
)
    decreases pieces.len(),
{
    if pieces.len() == 0 {
        st
    } else {
        let prev = apply_pieces(st, pieces.drop_last());
        let t = trim(pieces.last());
        if t.len() == 0 {
            prev
        } else {
            apply_cookie(prev, t)
        }
    }
}

/// The tokens after the `Set-Cookie` values in order.
pub open spec fn apply_headers(st: (Seq<char>, Seq<char>), values: Seq<Seq<char>>) -> (
    Seq<char>,
    Seq<char>,
)
    decreases values.len(),
{
    if values.len() == 0 {
        st
    } else {
        apply_pieces(apply_headers(st, values.drop_last()), split_from(values.last(), ';', 0))
    }
}

/// Token and refresh token that the `Set-Cookie` values carry; empty where
/// none is set.
pub open spec fn credential_from(values: Seq<Seq<char>>) -> (Seq<char>, Seq<char>) {
    apply_headers((Seq::empty(), Seq::empty()), values)
}

pub open spec fn string_views(v: Seq<String>) -> Seq<Seq<char>> {
    v.map_values(|s: String| s@)
}

/// The body that sign-in posts, given the account and password already
/// written as JSON strings.
pub open spec fn login_body(account_json: Seq<char>, password_json: Seq<char>) -> Seq<char> {
    "{\"account\":"@ + account_json + ",\"password\":"@ + password_json + ",\"apiError\":\"\"}"@
}

/// The `Authorization` value for the roster request, if a credential is held.
pub open spec fn bearer_header(jwt: Option<Seq<char>>) -> Option<Seq<char>> {
    match jwt {
        Some(t) => Some("Bearer "@ + t),
        None => None,
    }
}

/// The sign-in body with the account and password written as JSON strings.
pub fn login_body_from_json(account_json: &str, password_json: &str) -> (r: String)
    ensures
        r@ == login_body(account_json@, password_json@),
{
    let mut r = String::from_str("{\"account\":");
    r.append(account_json);
    r.append(",\"password\":");
    r.append(password_json);
    r.append(",\"apiError\":\"\"}");
    r
}

/// The JSON body that sign-in posts for `username` and `password`.
pub fn login_payload(username: &str, password: &str) -> (r: String)
    ensures
        r@ == login_body(json_string_of(username@), json_string_of(password@)),
{
    let a = json_quote(username);
    let p = json_quote(password);
    login_body_from_json(a.as_str(), p.as_str())
}

/// The tokens after one `Set-Cookie` value.
fn read_cookie_header(value: &str, token: &mut String, refresh: &mut String)
    ensures
        (final(token)@, final(refresh)@) == apply_pieces(
            (old(token)@, old(refresh)@),
            split_from(value@, ';', 0),
        ),
{
    let v = chars_of(value);
    let n = v.len();
    let mut i: usize = 0;
    let mut finished = false;
    let ghost mut done: Seq<Seq<char>> = Seq::empty();
    let ghost start = (token@, refresh@);
    while !finished
        invariant
            i <= n == v@.len(),
            v@ == value@,
            split_from(v@, ';', 0) == done + (if finished {
                Seq::empty()
            } else {
                split_from(v@, ';', i as int)
            }),
            (token@, refresh@) == apply_pieces(start, done),
            start == (old(token)@, old(refresh)@),
        decreases n + 1 - i + (if finished {
            0int
        } else {
            1int
        }),
    {
        let e = find_in_range(&v, ';', i, n);
        proof {
            lemma_find_in_suffix(v@, ';', i as int);
        }
        let ghost piece = v@.subrange(i as int, e as int);
        proof {
            if e < n {
                assert(split_from(v@, ';', i as int) =~= seq![piece] + split_from(
                    v@,
                    ';',
                    e + 1,
                ));
                assert(split_from(v@, ';', 0) =~= done.push(piece) + split_from(v@, ';', e + 1));
            } else {
                assert(split_from(v@, ';', i as int) =~= seq![piece]);
                assert(split_from(v@, ';', 0) =~= done.push(piece));
            }
            assert(done.push(piece).drop_last() =~= done);
        }
        let (a, b) = trim_range(&v, i, e);
        if a < b {
            if range_starts_with(&v, a, b, "token=") {
                let k = a + "token=".unicode_len();
                let f = find_in_range(&v, '=', k, b);
                proof {
                    let c = v@.subrange(a as int, b as int);
                    let rest = c.subrange("token="@.len() as int, c.len() as int);
                    assert(rest =~= v@.subrange(k as int, b as int));
                    assert(rest.subrange(0, find(rest, '=')) =~= v@.subrange(k as int, f as int));
                }
                *token = string_of(value, k, f);
            } else if range_starts_with(&v, a, b, "refreshToken=") {
                let k = a + "refreshToken=".unicode_len();
                let f = find_in_range(&v, '=', k, b);
                proof {
                    let c = v@.subrange(a as int, b as int);
                    let rest = c.subrange("refreshToken="@.len() as int, c.len() as int);
                    assert(rest =~= v@.subrange(k as int, b as int));
                    assert(rest.subrange(0, find(rest, '=')) =~= v@.subrange(k as int, f as int));
                }
                *refresh = string_of(value, k, f);
            }
        }
        proof {
            done = done.push(piece);
        }
        if e < n {
            i = e + 1;
        } else {
            finished = true;
        }
    }
    assert(done + Seq::<Seq<char>>::empty() =~= done);
}

/// `find` on a suffix, shifted, is `find_from` on the whole.
proof fn lemma_find_in_suffix(s: Seq<char>, c: char, i: int)
    requires
        0 <= i <= s.len(),
    ensures
        i + find(s.subrange(i, s.len() as int), c) == find_from(s, c, i),
{
    lemma_find_shift(s, c, i, 0);
}

proof fn lemma_find_shift(s: Seq<char>, c: char, i: int, j: int)
    requires
        0 <= i <= s.len(),
        0 <= j <= s.len() - i,
    ensures
        i + find_from(s.subrange(i, s.len() as int), c, j) == find_from(s, c, i + j),
    decreases s.len() - i - j,
{
    if j < s.len() - i {
        let t = s.subrange(i, s.len() as int);
        assert(t[j] == s[i + j]);
        if s[i + j] != c {
            lemma_find_shift(s, c, i, j + 1);
        }
    }
}

/// Token and refresh token from the `Set-Cookie` values of a sign-in answer.
pub fn read_login_cookies(values: &Vec<String>) -> (r: BambuUserResponse)
    ensures
        (r.token@, r.refresh_token@) == credential_from(string_views(values@)),
{
    let ghost all = string_views(values@);
    let mut token = String::new();
    let mut refresh = String::new();
    let mut k: usize = 0;
    while k < values.len()
        invariant
            k <= values@.len(),
            all == string_views(values@),
            (token@, refresh@) == apply_headers((Seq::empty(), Seq::empty()), all.subrange(0, k as int)),
        decreases values@.len() - k,
    {
        assert(all.subrange(0, k + 1).drop_last() =~= all.subrange(0, k as int));
        assert(all[k as int] == values@[k as int]@);
        read_cookie_header(values[k].as_str(), &mut token, &mut refresh);
        k = k + 1;
    }
    assert(all.subrange(0, k as int) =~= all);
    BambuUserResponse { token, refresh_token: refresh }
}

/// Reads a sign-in answer: its status decides, then its cookies give the tokens.
pub fn read_login_response(status: u16, set_cookies: &Vec<String>, body: String) -> (r: Result<
    BambuUserResponse,
    BambuLoginError,
>)
    ensures
        match r {
            Ok(u) => is_success(status) && (u.token@, u.refresh_token@) == credential_from(
                string_views(set_cookies@),
            ),
            Err(BambuLoginError::Rejected { status: s, body: b }) => !is_success(status) && s
                == status && b@ == body@,
            Err(BambuLoginError::Transport(_)) => false,
        },
{
    if status < 200 || status > 299 {
        return Err(BambuLoginError::Rejected { status, body });
    }
    Ok(read_login_cookies(set_cookies))
}

/// Reads a roster answer's status: on success the body is handed on to be decoded.
pub fn read_devices_response(status: u16, body: String) -> (r: Result<String, FetchError>)
    ensures
        match r {
            Ok(b) => is_success(status) && b@ == body@,
            Err(FetchError::BadResponse { status: s, body: b }) => !is_success(status) && s
                == status && b@ == body@,
            Err(_) => false,
        },
{
    if status < 200 || status > 299 {
        return Err(FetchError::BadResponse { status, body });
    }
    Ok(body)
}

/// The credential holder.
pub struct BambuClient {
    jwt: Option<String>,
}

impl View for BambuClient {
    type V = Option<Seq<char>>;

    closed spec fn view(&self) -> Option<Seq<char>> {
        match self.jwt {
            Some(t) => Some(t@),
            None => None,
        }
    }
}

impl BambuClient {
    /// A client that holds no credential.
    pub fn new() -> (r: BambuClient)
        ensures
            r@ == None::<Seq<char>>,
    {
        BambuClient { jwt: None }
    }

    pub fn get_jwt(&self) -> (r: Option<String>)
        ensures
            match r {
                Some(t) => self@ == Some(t@),
                None => self@ == None::<Seq<char>>,
            },
    {
        match &self.jwt {
            Some(t) => Some(t.clone()),
            None => None,
        }
    }

    pub fn set_jwt(&mut self, jwt: String)
        ensures
            final(self)@ == Some(jwt@),
    {
        self.jwt = Some(jwt);
    }

    /// The `Authorization` value for the roster request; fails when no
    /// credential is held.
    pub fn devices_authorization(&self) -> (r: Result<String, FetchError>)
        ensures
            match r {
                Ok(h) => bearer_header(self@) == Some(h@),
                Err(FetchError::Unauthenticated) => bearer_header(self@) == None::<Seq<char>>,
                Err(_) => false,
            },
    {
        match &self.jwt {
            Some(t) => {
                let r = String::from_str("Bearer ").concat(t.as_str());
                Ok(r)
            },
            None => Err(FetchError::Unauthenticated),
        }
    }

    /// The listeners that discovery runs one after the other.
    pub fn discovery_listeners() -> (r: Vec<SsdpListener>)
        ensures
            r@.len() == 2,
            r@[0].port == 1990,
            r@[1].port == 2021,
    {
        let mut r: Vec<SsdpListener> = Vec::new();
        r.push(SsdpListener::new(1990));
        r.push(SsdpListener::new(2021));
        r
    }

    /// The roster devices that the announcements gathered by discovery name,
    /// each with its local address. Announcements are first reduced to the
    /// first one per location.
    pub fn get_device_ips(devices: Vec<BambuDevice>, messages: Vec<SsdpMessage>) -> (r: Vec<
        BambuDevice,
    >)
        ensures
            device_views(r@) == resolve(
                device_views(devices@),
                dedupe_by_location(message_views(messages@)),
            ),
    {
        let unique = crate::devices::dedupe_messages(messages);
        resolve_devices(devices, &unique)
    }
}

/// Before any credential is set, the roster request fails as unauthenticated.
pub proof fn lemma_fetch_needs_credential(c: BambuClient)
    requires
        c@ == None::<Seq<char>>,
    ensures
        bearer_header(c@) == None::<Seq<char>>,
{
}

/// The text of a rejected request: status, then the server's body.
pub open spec fn status_text(what: Seq<char>, status: u16, body: Seq<char>) -> Seq<char> {
    what + " with status code "@ + decimal_text(status as nat) + ": \n\n"@ + body
}

fn status_message(what: &str, status: u16, body: &str) -> (r: String)
    ensures
        r@ == status_text(what@, status, body@),
{
    let mut r = String::from_str(what);
    r.append(" with status code ");
    push_decimal(&mut r, status as u64);
    r.append(": \n\n");
    r.append(body);
    r
}

impl BambuLoginError {
    /// A human-readable account of the failure, with status and body where
    /// the service answered.
    pub fn message(&self) -> (r: String)
        ensures
            match self {
                BambuLoginError::Transport(m) => r@ == "ReqwestError: "@ + m@,
                BambuLoginError::Rejected { status, body } => r@ == "IoError: "@ + status_text(
                    "Failed to login to Bambu"@,
                    *status,
                    body@,
                ),
            },
    {
        match self {
            BambuLoginError::Transport(m) => String::from_str("ReqwestError: ").concat(m.as_str()),
            BambuLoginError::Rejected { status, body } => {
                let t = status_message("Failed to login to Bambu", *status, body.as_str());
                String::from_str("IoError: ").concat(t.as_str())
            },
        }
    }
}

impl FetchError {
    /// A human-readable account of the failure.
    pub fn message(&self) -> (r: String)
        ensures
            match self {
                FetchError::Unauthenticated => r@
                    == "Expected a token to be set before calling get_devices, but none was found."@,
                FetchError::Transport(m) => r@ == m@,
                FetchError::BadResponse { status, body } => r@ == status_text(
                    "Failed to get devices from Bambu"@,
                    *status,
                    body@,
                ),
                FetchError::Decode(m) => r@ == "Failed to parse Bambu device response: "@ + m@,
            },
    {
        match self {
            FetchError::Unauthenticated => String::from_str(
                "Expected a token to be set before calling get_devices, but none was found.",
            ),
            FetchError::Transport(m) => m.clone(),
            FetchError::BadResponse { status, body } => status_message(
                "Failed to get devices from Bambu",
                *status,
                body.as_str(),
            ),
            FetchError::Decode(m) => String::from_str(
                "Failed to parse Bambu device response: ",
            ).concat(m.as_str()),
        }
    }
}

} // verus!
