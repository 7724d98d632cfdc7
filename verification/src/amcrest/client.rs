//! The camera as the bridge talks to it: addresses, requests and the login of its
//! RPC interface.

use digest_auth::AuthContext;
use md5::{Digest, Md5};
use vstd::prelude::*;
use vstd::string::*;
use vstd::utf8::{encode_utf8, is_ascii_chars};
use super::table::{at_pointer, SettingContents, SettingValue, Table};
use crate::text::{chars_of, decimal, push_decimal, spells, starts, string_of, trim, trimmed};

verus! {

/// A camera's address and credentials.
#[derive(Debug)]
pub struct AmcrestClient {
    pub host: String,
    pub username: String,
    pub password: String,
}

impl Clone for AmcrestClient {
    fn clone(&self) -> (r: Self)
        ensures
            r == *self,
    {
        AmcrestClient {
            host: self.host.clone(),
            username: self.username.clone(),
            password: self.password.clone(),
        }
    }
}

impl AmcrestClient {
    pub fn new(host: String, username: String, password: String) -> (c: Self)
        ensures
            c == (AmcrestClient { host, username, password }),
    {
        AmcrestClient { host, username, password }
    }

    /// RTSP URL for the given stream subtype (0 = main, 1/2 = sub streams).
    pub fn rtsp_url(&self, subtype: u8) -> (url: String)
        ensures
            url@ == "rtsp://"@ + self.username@ + ":"@ + self.password@ + "@"@ + self.host@
                + ":554/cam/realmonitor?channel=1&subtype="@ + decimal(subtype as nat),
    {
        let mut url = String::from_str("rtsp://");
        url.append(self.username.as_str());
        url.append(":");
        url.append(self.password.as_str());
        url.append("@");
        url.append(self.host.as_str());
        url.append(":554/cam/realmonitor?channel=1&subtype=");
        push_decimal(&mut url, subtype as u64);
        url
    }
}

/// The MD5 digest of some bytes.
pub uninterp spec fn md5_digest(bytes: Seq<u8>) -> Seq<u8>;

/// The answer to a digest challenge: the value of an `Authorization` header for a
/// GET request, where the challenge can be answered.
pub uninterp spec fn digest_answer(
    challenge: Seq<char>,
    username: Seq<char>,
    password: Seq<char>,
    uri: Seq<char>,
    cnonce: Seq<char>,
) -> Option<Seq<char>>;

/// Calls `Md5::digest`. The result is a function of the bytes, named
/// [`md5_digest`].
#[verifier::external_body]
fn digest(bytes: &[u8]) -> (d: [u8; 16])
    ensures
        d@ == md5_digest(bytes@),
{
    Md5::digest(bytes).into()
}

/// Calls `digest_auth::parse`, `respond` and `to_header_string`, with the client
/// nonce given. The result is a function of the arguments, named
/// [`digest_answer`]; it starts with the name of the scheme. The parser cuts at
/// character positions, so the challenge has to be ASCII.
#[verifier::external_body]
fn answer_challenge(
    challenge: &str,
    username: &str,
    password: &str,
    uri: &str,
    cnonce: &str,
) -> (r: Option<String>)
    requires
        is_ascii_chars(challenge@),
    ensures
        match r {
            Some(header) => digest_answer(challenge@, username@, password@, uri@, cnonce@) == Some(
                header@,
            ) && starts(header@, "Digest "@),
            None => digest_answer(challenge@, username@, password@, uri@, cnonce@) is None,
        },
{
    let mut context = AuthContext::new(username, password, uri);
    context.set_custom_cnonce(cnonce);
    Some(digest_auth::parse(challenge).ok()?.respond(&context).ok()?.to_header_string())
}

/// The upper-case hexadecimal digit of a number below sixteen.
pub open spec fn hex_digit(n: int) -> char {
    if n < 10 {
        (48 + n) as char
    } else {
        (55 + n) as char
    }
}

/// Bytes in upper-case hexadecimal.
pub open spec fn hex_upper(bytes: Seq<u8>) -> Seq<char>
    decreases bytes.len(),
{
    if bytes.len() == 0 {
        Seq::empty()
    } else {
        hex_upper(bytes.drop_last()) + seq![
            hex_digit((bytes.last() / 16) as int),
            hex_digit((bytes.last() % 16) as int),
        ]
    }
}

fn hex_char(n: u8) -> (c: char)
    requires
        n < 16,
    ensures
        c == hex_digit(n as int),
{
    if n < 10 {
        (48 + n) as char
    } else {
        (55 + n) as char
    }
}

fn hex_string(bytes: &[u8]) -> (s: String)
    ensures
        s@ == hex_upper(bytes@),
{
    let mut s = String::new();
    let mut i: usize = 0;
    assert(bytes@.take(0) =~= Seq::empty());
    while i < bytes.len()
        invariant
            i <= bytes@.len(),
            s@ == hex_upper(bytes@.take(i as int)),
        decreases bytes@.len() - i,
    {
        let ghost before = s@;
        assert(bytes@.take(i + 1).drop_last() =~= bytes@.take(i as int));
        s.push(hex_char(bytes[i] / 16));
        s.push(hex_char(bytes[i] % 16));
        assert(s@ =~= before + seq![
            hex_digit((bytes@[i as int] / 16) as int),
            hex_digit((bytes@[i as int] % 16) as int),
        ]);
        i = i + 1;
    }
    assert(bytes@.take(i as int) =~= bytes@);
    s
}

/// The MD5 digest of three texts with colons between them, in hexadecimal.
pub open spec fn colon_hash(a: Seq<char>, b: Seq<char>, c: Seq<char>) -> Seq<char> {
    hex_upper(md5_digest(encode_utf8(a + ":"@ + b + ":"@ + c)))
}

fn hash_of(a: &str, b: &str, c: &str) -> (s: String)
    ensures
        s@ == colon_hash(a@, b@, c@),
{
    let mut text = String::from_str(a);
    text.append(":");
    text.append(b);
    text.append(":");
    text.append(c);
    let d = digest(text.as_str().as_bytes());
    hex_string(d.as_slice())
}

/// What the camera asks a client to prove when it logs in.
#[derive(Debug)]
pub struct LoginChallenge {
    pub session: String,
    pub realm: String,
    pub random: String,
}

/// What is missing in the camera's answer to a login.
#[derive(Clone, Copy, Debug, PartialEq, Eq, Structural)]
pub enum LoginError {
    NoSession,
    NoParams,
    NoRealm,
    NoRandom,
}

/// What a fault of the answer is called.
pub open spec fn login_error_text(e: LoginError) -> Seq<char> {
    match e {
        LoginError::NoSession => "RPC2 login challenge omitted session"@,
        LoginError::NoParams => "RPC2 login challenge omitted params"@,
        LoginError::NoRealm => "RPC2 login challenge omitted realm"@,
        LoginError::NoRandom => "RPC2 login challenge omitted random"@,
    }
}

impl LoginError {
    /// The error in words.
    pub fn message(&self) -> (s: String)
        ensures
            s@ == login_error_text(*self),
            *self is NoSession ==> s@ == "RPC2 login challenge omitted session"@,
            *self is NoParams ==> s@ == "RPC2 login challenge omitted params"@,
            *self is NoRealm ==> s@ == "RPC2 login challenge omitted realm"@,
            *self is NoRandom ==> s@ == "RPC2 login challenge omitted random"@,
    {
        match *self {
            LoginError::NoSession => String::from_str("RPC2 login challenge omitted session"),
            LoginError::NoParams => String::from_str("RPC2 login challenge omitted params"),
            LoginError::NoRealm => String::from_str("RPC2 login challenge omitted realm"),
            LoginError::NoRandom => String::from_str("RPC2 login challenge omitted random"),
        }
    }
}

/// The text at a place of an answer.
pub open spec fn text_at(
    contents: Map<Seq<Seq<char>>, SettingContents>,
    pointer: Seq<char>,
) -> Option<Seq<char>> {
    match at_pointer(contents, pointer) {
        Some(SettingContents::Text(s)) => Some(s),
        _ => None,
    }
}

fn text_in(table: &Table, pointer: &str) -> (r: Option<String>)
    ensures
        match r {
            Some(s) => text_at(table@, pointer@) == Some(s@) && at_pointer(table@, pointer@)
                == Some(SettingContents::Text(s@)),
            None => text_at(table@, pointer@) is None && !(at_pointer(table@, pointer@) matches Some(
                SettingContents::Text(_),
            )),
        },
{
    match table.get(pointer) {
        Some(SettingValue::Text(s)) => Some(s),
        _ => None,
    }
}

/// Reads the challenge out of the camera's answer to a first login without a
/// password.
pub fn login_challenge(answer: &Table) -> (r: Result<LoginChallenge, LoginError>)
    ensures
        match r {
            Ok(c) => text_at(answer@, "/session"@) == Some(c.session@) && at_pointer(
                answer@,
                "/params"@,
            ) == Some(SettingContents::Object) && text_at(answer@, "/params/realm"@) == Some(
                c.realm@,
            ) && text_at(answer@, "/params/random"@) == Some(c.random@),
            Err(LoginError::NoSession) => text_at(answer@, "/session"@) is None,
            Err(LoginError::NoParams) => text_at(answer@, "/session"@) is Some && at_pointer(
                answer@,
                "/params"@,
            ) != Some(SettingContents::Object),
            Err(LoginError::NoRealm) => text_at(answer@, "/session"@) is Some && at_pointer(
                answer@,
                "/params"@,
            ) == Some(SettingContents::Object) && text_at(answer@, "/params/realm"@) is None,
            Err(LoginError::NoRandom) => text_at(answer@, "/session"@) is Some && at_pointer(
                answer@,
                "/params"@,
            ) == Some(SettingContents::Object) && text_at(answer@, "/params/realm"@) is Some
                && text_at(answer@, "/params/random"@) is None,
        },
{
    let session = match text_in(answer, "/session") {
        Some(session) => session,
        None => return Err(LoginError::NoSession),
    };
    match answer.get("/params") {
        Some(SettingValue::Object) => {},
        _ => return Err(LoginError::NoParams),
    }
    let realm = match text_in(answer, "/params/realm") {
        Some(realm) => realm,
        None => return Err(LoginError::NoRealm),
    };
    let random = match text_in(answer, "/params/random") {
        Some(random) => random,
        None => return Err(LoginError::NoRandom),
    };
    Ok(LoginChallenge { session, realm, random })
}

/// Whether an answer reports success.
pub open spec fn rpc_ok(contents: Map<Seq<Seq<char>>, SettingContents>) -> bool {
    at_pointer(contents, "/result"@) == Some(SettingContents::Bool(true))
}

/// What to do with an HTTP answer.
#[derive(Clone, Copy, Debug, PartialEq, Eq, Structural)]
pub enum HttpStep {
    Use,
    /// Ask again, with an answer to the challenge.
    Authenticate,
    Fail,
}

/// How often a table is asked for.
pub const RPC_CONFIG_ATTEMPTS: u8 = 3;

impl AmcrestClient {
    /// The URL of a path on the camera.
    pub fn url(&self, path_and_query: &str) -> (url: String)
        ensures
            url@ == "http://"@ + self.host@ + path_and_query@,
    {
        let mut url = String::from_str("http://");
        url.append(self.host.as_str());
        url.append(path_and_query);
        url
    }

    /// What to do with the answer to a request, from its status and whether the
    /// request was authenticated.
    pub fn http_step(status: u16, authenticated: bool) -> (step: HttpStep)
        ensures
            step == if 200 <= status < 300 {
                HttpStep::Use
            } else if status == 401 && !authenticated {
                HttpStep::Authenticate
            } else {
                HttpStep::Fail
            },
    {
        if status >= 200 && status < 300 {
            HttpStep::Use
        } else if status == 401 && !authenticated {
            HttpStep::Authenticate
        } else {
            HttpStep::Fail
        }
    }

    /// The `Authorization` header for a path, from the camera's challenge and a
    /// client nonce. A challenge that is not ASCII is not answered.
    pub fn authorization(&self, challenge: &str, path_and_query: &str, cnonce: &str) -> (r: Option<
        String,
    >)
        ensures
            match r {
                Some(header) => is_ascii_chars(challenge@) && digest_answer(
                    challenge@,
                    self.username@,
                    self.password@,
                    path_and_query@,
                    cnonce@,
                ) == Some(header@) && starts(header@, "Digest "@),
                None => !is_ascii_chars(challenge@) || digest_answer(
                    challenge@,
                    self.username@,
                    self.password@,
                    path_and_query@,
                    cnonce@,
                ) is None,
            },
    {
        if !challenge.is_ascii() {
            return None;
        }
        answer_challenge(
            challenge,
            self.username.as_str(),
            self.password.as_str(),
            path_and_query,
            cnonce,
        )
    }

    /// The camera's model designation, from its answer `type=IP8M-2796E-AI`.
    pub fn parse_device_type(body: &str) -> (r: String)
        ensures
            r@ == if starts(trimmed(body@), "type="@) {
                trimmed(body@).skip("type="@.len() as int)
            } else {
                trimmed(body@)
            },
    {
        let text = chars_of(body);
        let line = trim(text.as_slice());
        match crate::text::strip_prefix(line.as_slice(), "type=") {
            Some(rest) => string_of(rest.as_slice()),
            None => string_of(line.as_slice()),
        }
    }

    /// The password that a login sends: it proves the knowledge of the real one to
    /// this challenge alone.
    pub fn login_hash(&self, realm: &str, random: &str) -> (hash: String)
        ensures
            hash@ == colon_hash(
                self.username@,
                random@,
                colon_hash(self.username@, realm@, self.password@),
            ),
            hash@ == hex_upper(
                md5_digest(
                    encode_utf8(
                        self.username@.push(':') + random@.push(':') + hex_upper(
                            md5_digest(
                                encode_utf8(
                                    self.username@.push(':') + realm@.push(':') + self.password@,
                                ),
                            ),
                        ),
                    ),
                ),
            ),
    {
        proof {
            let inner = colon_hash(self.username@, realm@, self.password@);
            law_colons_stand_between(self.username@, realm@, self.password@);
            law_colons_stand_between(self.username@, random@, inner);
        }
        let password_hash = hash_of(self.username.as_str(), realm, self.password.as_str());
        hash_of(self.username.as_str(), random, password_hash.as_str())
    }

    /// Whether an answer of the RPC interface reports success.
    pub fn require_rpc_success(answer: &Table) -> (r: bool)
        ensures
            r == rpc_ok(answer@),
            r <==> at_pointer(answer@, "/result"@) == Some(SettingContents::Bool(true)),
    {
        match answer.get("/result") {
            Some(SettingValue::Bool(b)) => b,
            _ => false,
        }
    }

    /// How many milliseconds to wait before a table is asked for again, after
    /// attempt number `attempt` failed; nothing after the last attempt.
    pub fn rpc_retry_delay(attempt: u8) -> (r: Option<u64>)
        ensures
            r == if attempt < RPC_CONFIG_ATTEMPTS {
                Some((150 * attempt) as u64)
            } else {
                None
            },
            attempt < 3 ==> r == Some((150 * attempt) as u64),
            attempt >= 3 ==> r is None,
    {
        if attempt < RPC_CONFIG_ATTEMPTS {
            Some(150 * attempt as u64)
        } else {
            None
        }
    }

    /// The path of a request that sets configuration values.
    pub fn set_config_path(params: &str) -> (path: String)
        ensures
            path@ == "/cgi-bin/configManager.cgi?action=setConfig&"@ + params@,
    {
        let mut path = String::from_str("/cgi-bin/configManager.cgi?action=setConfig&");
        path.append(params);
        path
    }

    /// Whether the camera took configuration values.
    pub fn config_accepted(body: &str) -> (r: bool)
        ensures
            r == (trimmed(body@) == "OK"@),
    {
        let text = chars_of(body);
        let line = trim(text.as_slice());
        spells(line.as_slice(), "OK")
    }
}

/// The value of an upper-case hexadecimal digit.
pub open spec fn hex_value(c: char) -> int {
    if '0' <= c <= '9' {
        c as int - '0' as int
    } else {
        c as int - 'A' as int + 10
    }
}

/// Each byte has two hexadecimal digits, the higher one first, out of `0` to `9` and `A`
/// to `F`.
pub proof fn law_a_byte_has_two_digits(bytes: Seq<u8>, i: int)
    requires
        0 <= i < bytes.len(),
    ensures
        ({
            let text = hex_upper(bytes);
            &&& text.len() == 2 * bytes.len()
            &&& '0' <= text[2 * i] <= '9' || 'A' <= text[2 * i] <= 'F'
            &&& '0' <= text[2 * i + 1] <= '9' || 'A' <= text[2 * i + 1] <= 'F'
            &&& 16 * hex_value(text[2 * i]) + hex_value(text[2 * i + 1]) == bytes[i]
        }),
    decreases bytes.len(),
{
    let front = bytes.drop_last();
    lemma_hex_len(front);
    if i < front.len() {
        law_a_byte_has_two_digits(front, i);
    }
}

proof fn lemma_hex_len(bytes: Seq<u8>)
    ensures
        hex_upper(bytes).len() == 2 * bytes.len(),
    decreases bytes.len(),
{
    if bytes.len() > 0 {
        lemma_hex_len(bytes.drop_last());
    }
}

/// What is hashed are the three texts with one colon between each two.
pub proof fn law_colons_stand_between(a: Seq<char>, b: Seq<char>, c: Seq<char>)
    ensures
        colon_hash(a, b, c) == hex_upper(md5_digest(encode_utf8(a.push(':') + b.push(':') + c))),
{
    reveal_strlit(":");
    assert(":"@ =~= seq![':']);
    assert(a + ":"@ + b + ":"@ + c =~= a.push(':') + b.push(':') + c);
}

} // verus!
