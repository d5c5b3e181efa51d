//! Shelly RGBW controllers: which API generation a model speaks, the Gen1 URLs, reading back the
//! state a controller reports, and the decisions of a Gen2 JSON-RPC call, digest authentication
//! included.
use vstd::prelude::*;
use vstd::string::*;
use crate::text::{contains_seq, decimal, ends_with_seq, push_char, push_decimal, push_str, starts_with_seq, string_with};

verus! {

/// `digest_auth::WwwAuthenticateHeader`, a parsed digest challenge, carried through unread.
#[verifier::external_type_specification]
#[verifier::external_body]
pub struct ExWwwAuthenticateHeader(digest_auth::WwwAuthenticateHeader);

/// Credentials for a password-protected controller.
#[derive(Debug, Clone)]
pub struct ShellyAuth {
    pub username: String,
    pub password: String,
}

/// The controller model the config names; `Auto` asks the controller.
#[derive(Debug, Clone, Copy, PartialEq, Eq, Structural)]
pub enum ShellyModel {
    Auto,
    /// The Gen1 Shelly RGBW2.
    Rgbw2,
    /// The Gen2 Shelly Plus RGBW PM.
    PlusRgbwPm,
}

/// The API generation a controller speaks.
#[derive(Debug, Clone, Copy, PartialEq, Eq, Structural)]
pub enum ApiGen {
    Gen1,
    Gen2,
}

/// A controller's light state, as read at start and written back at exit.
#[derive(Debug, Clone, Copy, PartialEq, Eq, Structural)]
pub struct ShellyRgbwState {
    pub on: bool,
    pub r: u8,
    pub g: u8,
    pub b: u8,
    pub w: u8,
    /// 0..=100: the Gen1 gain or the Gen2 brightness.
    pub brightness: u8,
}

/// The generation a model fixes; `None` for `Auto`, which has to ask the controller.
pub fn model_api(model: ShellyModel) -> (r: Option<ApiGen>)
    ensures
        r == match model {
            ShellyModel::Auto => None::<ApiGen>,
            ShellyModel::Rgbw2 => Some(ApiGen::Gen1),
            ShellyModel::PlusRgbwPm => Some(ApiGen::Gen2),
        },
{
    match model {
        ShellyModel::Auto => None,
        ShellyModel::Rgbw2 => Some(ApiGen::Gen1),
        ShellyModel::PlusRgbwPm => Some(ApiGen::Gen2),
    }
}

/// The generation `GET /shelly` reveals: Gen1 when the request is refused (Gen1 firmware may not
/// answer it), otherwise Gen2 from a `gen` of 2 or more, Gen1 when `gen` is lower or missing.
pub fn detected_api(success: bool, gen: Option<i64>) -> (r: ApiGen)
    ensures
        r == (if success && match gen {
            Some(g) => g >= 2,
            None => false,
        } {
            ApiGen::Gen2
        } else {
            ApiGen::Gen1
        }),
{
    if !success {
        return ApiGen::Gen1;
    }
    let g: i64 = match gen {
        Some(g) => g,
        None => 1,
    };
    if g >= 2 {
        ApiGen::Gen2
    } else {
        ApiGen::Gen1
    }
}

/// `base` followed by a path.
fn with_path(base: &str, path: &str) -> (s: String)
    ensures
        s@ == base@ + path@,
{
    let mut s = String::from_str(base);
    push_str(&mut s, path);
    s
}

/// Where the API generation is asked.
pub fn info_url(base: &str) -> (s: String)
    ensures
        s@ == base@ + "/shelly"@,
{
    with_path(base, "/shelly")
}

/// Where the Gen1 colour state is read.
pub fn gen1_state_url(base: &str) -> (s: String)
    ensures
        s@ == base@ + "/color/0"@,
{
    with_path(base, "/color/0")
}

/// Where Gen2 JSON-RPC calls go.
pub fn rpc_url(base: &str) -> (s: String)
    ensures
        s@ == base@ + "/rpc"@,
{
    with_path(base, "/rpc")
}

/// `v` held to `lo..=hi`.
pub open spec fn clamp_u8(v: u8, lo: u8, hi: u8) -> u8 {
    if v < lo {
        lo
    } else if v > hi {
        hi
    } else {
        v
    }
}

/// The Gen1 request that sets a colour: on, the four channels, the gain held to
/// `1..=max_brightness`, and the transition in milliseconds.
pub open spec fn gen1_color_address(base: Seq<char>, r: u8, g: u8, b: u8, w: u8, gain: u8, max_brightness: u8, transition_ms: u32) -> Seq<char> {
    base + "/color/0?turn=on&red="@ + decimal(r as nat) + "&green="@ + decimal(g as nat) + "&blue="@ + decimal(b as nat)
        + "&white="@ + decimal(w as nat) + "&gain="@ + decimal(clamp_u8(gain, 1, max_brightness) as nat) + "&transition="@
        + decimal(transition_ms as nat)
}

/// The Gen1 request that sets a colour. `u8::clamp` panics when its bounds cross, so the
/// maximum brightness has to be at least 1.
pub fn gen1_color_url(base: &str, r: u8, g: u8, b: u8, w: u8, gain: u8, max_brightness: u8, transition_ms: u32) -> (s: String)
    requires
        max_brightness >= 1,
    ensures
        s@ == gen1_color_address(base@, r, g, b, w, gain, max_brightness, transition_ms),
{
    let mut s = String::from_str(base);
    push_str(&mut s, "/color/0?turn=on&red=");
    push_decimal(&mut s, r as u64);
    push_str(&mut s, "&green=");
    push_decimal(&mut s, g as u64);
    push_str(&mut s, "&blue=");
    push_decimal(&mut s, b as u64);
    push_str(&mut s, "&white=");
    push_decimal(&mut s, w as u64);
    push_str(&mut s, "&gain=");
    let clamped: u8 = if gain < 1 {
        1
    } else if gain > max_brightness {
        max_brightness
    } else {
        gain
    };
    push_decimal(&mut s, clamped as u64);
    push_str(&mut s, "&transition=");
    push_decimal(&mut s, transition_ms as u64);
    s
}

/// The Gen1 request that puts a saved state back, without a transition.
pub open spec fn gen1_restore_address(base: Seq<char>, st: ShellyRgbwState) -> Seq<char> {
    base + "/color/0?turn="@ + (if st.on {
        "on"@
    } else {
        "off"@
    }) + "&red="@ + decimal(st.r as nat) + "&green="@ + decimal(st.g as nat) + "&blue="@ + decimal(st.b as nat) + "&white="@
        + decimal(st.w as nat) + "&gain="@ + decimal(st.brightness as nat) + "&transition=0"@
}

/// The Gen1 request that puts a saved state back.
pub fn gen1_restore_url(base: &str, st: ShellyRgbwState) -> (s: String)
    ensures
        s@ == gen1_restore_address(base@, st),
{
    let mut s = String::from_str(base);
    push_str(&mut s, "/color/0?turn=");
    if st.on {
        push_str(&mut s, "on");
    } else {
        push_str(&mut s, "off");
    }
    push_str(&mut s, "&red=");
    push_decimal(&mut s, st.r as u64);
    push_str(&mut s, "&green=");
    push_decimal(&mut s, st.g as u64);
    push_str(&mut s, "&blue=");
    push_decimal(&mut s, st.b as u64);
    push_str(&mut s, "&white=");
    push_decimal(&mut s, st.w as u64);
    push_str(&mut s, "&gain=");
    push_decimal(&mut s, st.brightness as u64);
    push_str(&mut s, "&transition=0");
    s
}

/// A reported number or zero, cut to its low byte as `as u8` does.
pub open spec fn low_byte(v: Option<u64>) -> u8 {
    match v {
        Some(x) => (x % 256) as u8,
        None => 0,
    }
}

/// A reported number or zero, held to `limit`.
pub open spec fn capped(v: Option<u64>, limit: u64) -> u8
    recommends
        limit <= 255,
{
    match v {
        Some(x) => if x > limit {
            limit as u8
        } else {
            x as u8
        },
        None => 0,
    }
}

/// A reported number, or zero.
fn low_byte_of(v: Option<u64>) -> (b: u8)
    ensures
        b == low_byte(v),
{
    match v {
        Some(x) => {
            assert((x as u8) == (x % 256) as u8) by (bit_vector);
            x as u8
        },
        None => 0,
    }
}

/// A reported number, held to `limit`.
fn capped_of(v: Option<u64>, limit: u64) -> (b: u8)
    requires
        limit <= 255,
    ensures
        b == capped(v, limit),
{
    match v {
        Some(x) => if x > limit {
            limit as u8
        } else {
            x as u8
        },
        None => 0,
    }
}

/// The state a Gen1 controller reports on `/color/0`: `ison`, the four channels (a missing one
/// is zero; larger numbers keep their low byte), and the gain held to 100.
pub fn state_from_gen1(ison: Option<bool>, red: Option<u64>, green: Option<u64>, blue: Option<u64>, white: Option<u64>, gain: Option<u64>) -> (s: ShellyRgbwState)
    ensures
        s == (ShellyRgbwState {
            on: match ison {
                Some(b) => b,
                None => false,
            },
            r: low_byte(red),
            g: low_byte(green),
            b: low_byte(blue),
            w: low_byte(white),
            brightness: capped(gain, 100),
        }),
{
    ShellyRgbwState {
        on: match ison {
            Some(b) => b,
            None => false,
        },
        r: low_byte_of(red),
        g: low_byte_of(green),
        b: low_byte_of(blue),
        w: low_byte_of(white),
        brightness: capped_of(gain, 100),
    }
}

/// The entry at `i` of the reported `rgb` array, or zero past its end.
pub open spec fn rgb_entry(rgb: Seq<Option<u64>>, i: int) -> u8 {
    if 0 <= i < rgb.len() {
        low_byte(rgb[i])
    } else {
        0
    }
}

/// The state a Gen2 controller reports from `RGBW.GetStatus`: `output`, red, green and blue from
/// the `rgb` array (each entry that is not a number counts as zero, larger numbers keep their low
/// byte, missing entries are zero), white held to 255 and brightness to 100.
pub fn state_from_gen2(output: Option<bool>, rgb: &Vec<Option<u64>>, white: Option<u64>, brightness: Option<u64>) -> (s: ShellyRgbwState)
    ensures
        s == (ShellyRgbwState {
            on: match output {
                Some(b) => b,
                None => false,
            },
            r: rgb_entry(rgb@, 0),
            g: rgb_entry(rgb@, 1),
            b: rgb_entry(rgb@, 2),
            w: capped(white, 255),
            brightness: capped(brightness, 100),
        }),
{
    let r = if rgb.len() > 0 {
        low_byte_of(rgb[0])
    } else {
        0
    };
    let g = if rgb.len() > 1 {
        low_byte_of(rgb[1])
    } else {
        0
    };
    let b = if rgb.len() > 2 {
        low_byte_of(rgb[2])
    } else {
        0
    };
    ShellyRgbwState {
        on: match output {
            Some(o) => o,
            None => false,
        },
        r,
        g,
        b,
        w: capped_of(white, 255),
        brightness: capped_of(brightness, 100),
    }
}

/// The brightness a Gen2 `RGBW.Set` carries: held to `1..=max_brightness`.
pub fn gen2_brightness(brightness: u8, max_brightness: u8) -> (v: u32)
    requires
        max_brightness >= 1,
    ensures
        v == clamp_u8(brightness, 1, max_brightness) as u32,
{
    let c: u8 = if brightness < 1 {
        1
    } else if brightness > max_brightness {
        max_brightness
    } else {
        brightness
    };
    c as u32
}

/// The brightness a restored Gen2 state carries: held to `1..=100`.
pub fn restore_brightness(brightness: u8) -> (v: u32)
    ensures
        v == clamp_u8(brightness, 1, 100) as u32,
{
    gen2_brightness(brightness, 100)
}

/// How a controller is named in the log.
pub fn device_name(host: &str) -> (s: String)
    ensures
        s@ == "shelly "@ + host@,
{
    let mut s = String::from_str("shelly ");
    push_str(&mut s, host);
    s
}

/// What became of sending a request: the ways it can fail, each with the error's text, or the
/// status it was answered with and that status written out (`"500 Internal Server Error"`).
pub enum Sent {
    TimedOut(String),
    ConnectFailed(String),
    /// The request failed with a 401 status attached to the error.
    Unauthorized(String),
    Failed(String),
    Replied { status: u16, text: String },
}

/// Whether a status is a success, `200..=299`.
pub open spec fn success(status: u16) -> bool {
    200 <= status <= 299
}

/// What the Gen1 colour request comes to: a timeout or an error status is logged and ignored,
/// any other failure is an error.
pub open spec fn gen1_outcome(sent: Sent) -> Result<Option<Seq<char>>, Seq<char>> {
    match sent {
        Sent::TimedOut(e) => Ok(Some("Gen1 Shelly timeout (ignored): "@ + e@)),
        Sent::ConnectFailed(e) => Err("Gen1 /color/0 request failed: "@ + e@),
        Sent::Unauthorized(e) => Err("Gen1 /color/0 request failed: "@ + e@),
        Sent::Failed(e) => Err("Gen1 /color/0 request failed: "@ + e@),
        Sent::Replied { status, text } => if success(status) {
            Ok(None)
        } else {
            Ok(Some("Gen1 Shelly HTTP error (ignored): "@ + text@))
        },
    }
}

/// The view of an optional string.
pub open spec fn opt_view(o: Option<String>) -> Option<Seq<char>> {
    match o {
        Some(s) => Some(s@),
        None => None,
    }
}

/// What the Gen1 colour request comes to: `Ok` with the line to log, if any, or the error.
pub fn gen1_send_outcome(sent: Sent) -> (r: Result<Option<String>, String>)
    ensures
        match gen1_outcome(sent) {
            Ok(line) => r is Ok && opt_view(r->Ok_0) == line,
            Err(m) => r is Err && r->Err_0@ == m,
        },
{
    match sent {
        Sent::TimedOut(e) => {
            let mut m = String::from_str("Gen1 Shelly timeout (ignored): ");
            push_str(&mut m, e.as_str());
            Ok(Some(m))
        },
        Sent::ConnectFailed(e) | Sent::Unauthorized(e) | Sent::Failed(e) => {
            let mut m = String::from_str("Gen1 /color/0 request failed: ");
            push_str(&mut m, e.as_str());
            Err(m)
        },
        Sent::Replied { status, text } => {
            if 200 <= status && status <= 299 {
                Ok(None)
            } else {
                let mut m = String::from_str("Gen1 Shelly HTTP error (ignored): ");
                push_str(&mut m, text.as_str());
                Ok(Some(m))
            }
        },
    }
}

/// What a Gen2 call does after its first, unauthenticated request.
pub enum FirstStep {
    /// Give up quietly with a null result, logging the line when there is one.
    Ignore(Option<String>),
    /// Fail with this message.
    Fail(String),
    /// The controller wants digest authentication: answer the challenge and send again.
    Authenticate,
    /// Judge the answer with this status and text.
    Check { status: u16, text: String },
}

/// The step after the first request of a Gen2 call: timeouts and refused connections are
/// logged and ignored, as is a failure that carries a 401; other failures are errors; a 401
/// answer asks for authentication; any other answer is judged as it is.
pub open spec fn first_step(sent: Sent) -> FirstStep {
    match sent {
        Sent::TimedOut(e) => FirstStep::Ignore(Some(string_with("Gen2 Shelly timeout (ignored) POST /rpc: "@ + e@))),
        Sent::ConnectFailed(e) => FirstStep::Ignore(Some(string_with("Gen2 Shelly connect error (ignored) POST /rpc: "@ + e@))),
        Sent::Unauthorized(_) => FirstStep::Ignore(None),
        Sent::Failed(e) => FirstStep::Fail(string_with("POST /rpc failed: "@ + e@)),
        Sent::Replied { status, text } => if status == 401 {
            FirstStep::Authenticate
        } else {
            FirstStep::Check { status, text }
        },
    }
}

/// Whether two steps are the same up to the text of their strings.
pub open spec fn same_step(a: FirstStep, b: FirstStep) -> bool {
    match (a, b) {
        (FirstStep::Ignore(x), FirstStep::Ignore(y)) => opt_view(x) == opt_view(y),
        (FirstStep::Fail(x), FirstStep::Fail(y)) => x@ == y@,
        (FirstStep::Authenticate, FirstStep::Authenticate) => true,
        (FirstStep::Check { status: s1, text: t1 }, FirstStep::Check { status: s2, text: t2 }) => s1 == s2 && t1@ == t2@,
        _ => false,
    }
}

/// Law: the first request of a Gen2 call fails the call only when it failed for a reason other
/// than a timeout, a refused connection or a 401; a timeout or a refused connection is ignored
/// with a line to log, and an answer never fails at this step.
pub proof fn lemma_first_step_fails_only_on_errors(sent: Sent)
    ensures
        (first_step(sent) is Fail) <==> (sent is Failed),
        (sent is ConnectFailed || sent is TimedOut) ==> (first_step(sent) matches FirstStep::Ignore(Some(_))),
{
}

/// Decides the step after the first request of a Gen2 call.
pub fn after_first_send(sent: Sent) -> (step: FirstStep)
    ensures
        same_step(step, first_step(sent)),
        sent matches Sent::ConnectFailed(e) ==> (step matches FirstStep::Ignore(Some(line)) && line@
            == "Gen2 Shelly connect error (ignored) POST /rpc: "@ + e@),
        sent matches Sent::TimedOut(e) ==> (step matches FirstStep::Ignore(Some(line)) && line@
            == "Gen2 Shelly timeout (ignored) POST /rpc: "@ + e@),
        sent matches Sent::Failed(e) ==> (step matches FirstStep::Fail(m) && m@ == "POST /rpc failed: "@ + e@),
{
    match sent {
        Sent::TimedOut(e) => {
            let mut m = String::from_str("Gen2 Shelly timeout (ignored) POST /rpc: ");
            push_str(&mut m, e.as_str());
            proof {
                let w = "Gen2 Shelly timeout (ignored) POST /rpc: "@ + e@;
                assert(exists|t: String| t@ == w) by {
                    assert(m@ == w);
                }
            }
            FirstStep::Ignore(Some(m))
        },
        Sent::ConnectFailed(e) => {
            let mut m = String::from_str("Gen2 Shelly connect error (ignored) POST /rpc: ");
            push_str(&mut m, e.as_str());
            proof {
                let w = "Gen2 Shelly connect error (ignored) POST /rpc: "@ + e@;
                assert(exists|t: String| t@ == w) by {
                    assert(m@ == w);
                }
            }
            FirstStep::Ignore(Some(m))
        },
        Sent::Unauthorized(_) => FirstStep::Ignore(None),
        Sent::Failed(e) => {
            let mut m = String::from_str("POST /rpc failed: ");
            push_str(&mut m, e.as_str());
            proof {
                let w = "POST /rpc failed: "@ + e@;
                assert(exists|t: String| t@ == w) by {
                    assert(m@ == w);
                }
            }
            FirstStep::Fail(m)
        },
        Sent::Replied { status, text } => {
            if status == 401 {
                FirstStep::Authenticate
            } else {
                FirstStep::Check { status, text }
            }
        },
    }
}

/// Whether every character of a text is ASCII.
pub open spec fn is_ascii(s: Seq<char>) -> bool {
    forall|i: int| 0 <= i < s.len() ==> (#[trigger] s[i] as int) < 128
}

/// The verdict of `digest_auth::parse` on a challenge text: `None` when it accepts the text,
/// else the text of its error. The parser is the crate's; its verdict depends on the text alone.
pub uninterp spec fn challenge_verdict(www: Seq<char>) -> Option<Seq<char>>;

/// A digest challenge as `digest_auth::parse` read it, with the text it was read from. Only
/// `parse_challenge` makes one, so a challenge always carries a `qop` list the crate can answer
/// (or none), and answering one consumes it, so each is answered fresh, as the text describes it.
pub struct DigestChallenge {
    header: digest_auth::WwwAuthenticateHeader,
    text: Ghost<Seq<char>>,
}

impl View for DigestChallenge {
    type V = Seq<char>;

    /// The challenge text the header was parsed from.
    closed spec fn view(&self) -> Seq<char> {
        self.text@
    }
}

/// Parses a `WWW-Authenticate` digest challenge with `digest_auth::parse`, giving the parser's
/// error as text. The parser slices names by character count, which is a byte offset only in
/// ASCII text, so the text has to be ASCII (as every header value that `to_str` accepts is).
/// Claimed: it succeeds exactly when the parser accepts the text, and fails with its error.
#[verifier::external_body]
fn parse_challenge(www: &str) -> (r: Result<DigestChallenge, String>)
    requires
        is_ascii(www@),
    ensures
        match r {
            Ok(c) => challenge_verdict(www@) is None && c@ == www@,
            Err(e) => challenge_verdict(www@) == Some(e@),
        },
{
    match digest_auth::parse(www) {
        Ok(header) => Ok(DigestChallenge { header, text: Ghost(www@) }),
        Err(e) => Err(e.to_string()),
    }
}

/// What a digest answer is computed over: the user, the password, the requested URI and the
/// request body. The method is POST.
pub struct DigestRequest {
    pub username: String,
    pub password: String,
    pub uri: String,
    pub body: Vec<u8>,
}

/// The digest request of a Gen2 call: the configured credentials, the URI `/rpc`, and the
/// request body.
pub fn rpc_digest_request(auth: &ShellyAuth, body: &[u8]) -> (d: DigestRequest)
    ensures
        d.username@ == auth.username@,
        d.password@ == auth.password@,
        d.uri@ == "/rpc"@,
        d.body@ == body@,
{
    let mut b: Vec<u8> = Vec::new();
    let mut i: usize = 0;
    while i < body.len()
        invariant
            i <= body@.len(),
            b@ == body@.take(i as int),
        decreases body@.len() - i,
    {
        b.push(body[i]);
        i = i + 1;
        assert(b@ =~= body@.take(i as int));
    }
    assert(body@.take(body@.len() as int) =~= body@);
    DigestRequest { username: auth.username.clone(), password: auth.password.clone(), uri: String::from_str("/rpc"), body: b }
}

/// A text quoted as digest headers quote their values: each backslash and each double quote
/// gets a backslash in front.
pub open spec fn digest_quoted(s: Seq<char>) -> Seq<char>
    decreases s.len(),
{
    if s.len() == 0 {
        Seq::empty()
    } else {
        (if s[0] == '\\' || s[0] == '"' {
            seq!['\\', s[0]]
        } else {
            seq![s[0]]
        }) + digest_quoted(s.drop_first())
    }
}

/// Whether an `Authorization` header answers for this user and URI: it starts with the quoted
/// user name (or asks with a hashed user name, which it then says at its end), and carries the
/// quoted URI after the server's nonce.
pub open spec fn digest_answer(h: Seq<char>, username: Seq<char>, uri: Seq<char>) -> bool {
    &&& starts_with_seq(h, "Digest username=\""@)
    &&& (starts_with_seq(h, "Digest username=\""@ + digest_quoted(username) + "\", realm=\""@) || ends_with_seq(
        h,
        ", userhash=true"@,
    ))
    &&& contains_seq(h, "\", uri=\""@ + digest_quoted(uri) + "\""@)
}

/// The `Authorization` header value `digest_auth` writes to answer the challenge `www` for a
/// POST of `body` to `uri` as `user` with `password`, using the client nonce `cnonce` (the first
/// answer to that challenge). The crate's hashing is its own; with the nonce given, the answer
/// depends on these values alone.
pub uninterp spec fn digest_post_answer(www: Seq<char>, user: Seq<char>, password: Seq<char>, uri: Seq<char>, body: Seq<u8>, cnonce: Seq<char>) -> Seq<char>;

/// Answers a parsed challenge for a POST with `WwwAuthenticateHeader::respond`, over a context
/// made by `AuthContext::new_post` from the request with the client nonce set by
/// `AuthContext::set_custom_cnonce`, written out as a header value. The crate refuses only a
/// `qop` list that names neither `auth` nor `auth-int`, which its parser never builds, so a
/// parsed challenge is always answered. Claimed: the header is the crate's answer for the
/// challenge text, the request and the nonce, and it names the user and the URI as `Display`
/// writes them.
#[verifier::external_body]
fn respond_to_challenge(challenge: DigestChallenge, req: &DigestRequest, cnonce: &str) -> (r: String)
    ensures
        r@ == digest_post_answer(challenge@, req.username@, req.password@, req.uri@, req.body@, cnonce@),
        digest_answer(r@, req.username@, req.uri@),
{
    let mut header = challenge.header;
    let mut ctx = digest_auth::AuthContext::new_post(req.username.as_str(), req.password.as_str(), req.uri.as_str(), Some(req.body.as_slice()));
    ctx.set_custom_cnonce(cnonce);
    header.respond(&ctx).expect("a parsed challenge is always answered").to_string()
}

/// Sixteen random bytes from `rand::random`, the generator `digest_auth` draws its own client
/// nonces from.
#[verifier::external_body]
fn random_bytes() -> (b: Vec<u8>)
    ensures
        b@.len() == 16,
{
    rand::random::<[u8; 16]>().to_vec()
}

/// The lowercase hexadecimal digit for `d`.
pub open spec fn hex_digit(d: int) -> char {
    if d < 10 {
        ('0' as int + d) as char
    } else {
        ('a' as int + d - 10) as char
    }
}

/// Bytes in lowercase hexadecimal, two digits each, high half first.
pub open spec fn hex_text(b: Seq<u8>) -> Seq<char>
    decreases b.len(),
{
    if b.len() == 0 {
        Seq::empty()
    } else {
        hex_text(b.drop_last()) + seq![hex_digit((b.last() / 16) as int), hex_digit((b.last() % 16) as int)]
    }
}

fn hex_char(d: u8) -> (c: char)
    requires
        d < 16,
    ensures
        c == hex_digit(d as int),
{
    if d < 10 {
        (48 + d) as char
    } else {
        (87 + d) as char
    }
}

/// A fresh client nonce for a digest answer: sixteen random bytes in lowercase hexadecimal, as
/// `digest_auth` makes its own.
pub fn client_nonce() -> (s: String)
    ensures
        s@.len() == 32,
        exists|b: Seq<u8>| b.len() == 16 && s@ == hex_text(b),
{
    let b = random_bytes();
    let mut s = String::new();
    let mut i: usize = 0;
    while i < b.len()
        invariant
            b@.len() == 16,
            i <= 16,
            s@ == hex_text(b@.take(i as int)),
            s@.len() == 2 * i,
        decreases 16 - i,
    {
        let x = b[i];
        assert(b@.take(i + 1).drop_last() =~= b@.take(i as int));
        push_char(&mut s, hex_char(x / 16));
        push_char(&mut s, hex_char(x % 16));
        i = i + 1;
    }
    assert(b@.take(16) =~= b@);
    s
}

/// The `Authorization` header for the second request of a Gen2 call, from the credentials in
/// the config, the `WWW-Authenticate` header of the 401 (missing, or its text, or why it is not
/// text), the request body the digest covers, and the client nonce to answer with (see
/// `client_nonce`). A header value that is text is ASCII, as `to_str` only accepts visible
/// ASCII.
pub fn digest_authorization(auth: &Option<ShellyAuth>, header: Option<Result<String, String>>, body: &[u8], cnonce: &str) -> (r: Result<String, String>)
    requires
        header matches Some(Ok(w)) ==> (auth is Some ==> is_ascii(w@)),
    ensures
        match auth {
            None => r is Err && r->Err_0@ == "Gen2 Shelly requires auth (401), but config.shelly.auth is null"@,
            Some(a) => match header {
                None => r is Err && r->Err_0@ == "401 without WWW-Authenticate header"@,
                Some(Err(e)) => r is Err && r->Err_0@ == "WWW-Authenticate not valid utf-8: "@ + e@,
                Some(Ok(www)) => match challenge_verdict(www@) {
                    None => r is Ok && r->Ok_0@ == digest_post_answer(www@, a.username@, a.password@, "/rpc"@, body@, cnonce@)
                        && digest_answer(r->Ok_0@, a.username@, "/rpc"@),
                    Some(e) => r is Err && r->Err_0@ == "parse digest WWW-Authenticate: "@ + e,
                },
            },
        },
{
    let a = match auth {
        Some(a) => a,
        None => {
            return Err(String::from_str("Gen2 Shelly requires auth (401), but config.shelly.auth is null"));
        },
    };
    let www = match header {
        None => {
            return Err(String::from_str("401 without WWW-Authenticate header"));
        },
        Some(Err(e)) => {
            let mut m = String::from_str("WWW-Authenticate not valid utf-8: ");
            push_str(&mut m, e.as_str());
            return Err(m);
        },
        Some(Ok(www)) => www,
    };
    let challenge = match parse_challenge(www.as_str()) {
        Ok(c) => c,
        Err(e) => {
            let mut m = String::from_str("parse digest WWW-Authenticate: ");
            push_str(&mut m, e.as_str());
            return Err(m);
        },
    };
    let req = rpc_digest_request(a, body);
    Ok(respond_to_challenge(challenge, &req, cnonce))
}

/// How a Gen2 call ends once its answer is in: an error status fails with the status, an answer
/// that is not JSON fails with why, an answer with an `error` member fails with that member as
/// JSON; otherwise the call succeeds and its `result` member is what it returns.
pub open spec fn verdict(status: u16, text: Seq<char>, reply: Result<Option<String>, String>) -> Result<(), Seq<char>> {
    if !success(status) {
        Err("Gen2 Shelly RPC error: HTTP "@ + text)
    } else {
        match reply {
            Err(e) => Err("parse RPC JSON response: "@ + e@),
            Ok(Some(err)) => Err("Gen2 Shelly RPC returned error: "@ + err@),
            Ok(None) => Ok(()),
        }
    }
}

/// Judges the answer to a Gen2 call: its status and written-out status, and the answer as read
/// (the text of its `error` member when it has one, or why it is not JSON).
pub fn rpc_verdict(status: u16, text: &str, reply: Result<Option<String>, String>) -> (r: Result<(), String>)
    ensures
        match verdict(status, text@, reply) {
            Ok(()) => r is Ok,
            Err(m) => r is Err && r->Err_0@ == m,
        },
{
    if !(200 <= status && status <= 299) {
        let mut m = String::from_str("Gen2 Shelly RPC error: HTTP ");
        push_str(&mut m, text);
        return Err(m);
    }
    match reply {
        Err(e) => {
            let mut m = String::from_str("parse RPC JSON response: ");
            push_str(&mut m, e.as_str());
            Err(m)
        },
        Ok(Some(err)) => {
            let mut m = String::from_str("Gen2 Shelly RPC returned error: ");
            push_str(&mut m, err.as_str());
            Err(m)
        },
        Ok(None) => Ok(()),
    }
}

} // verus!
