use shellyrgbaudio::shelly::{
    after_first_send, client_nonce, detected_api, device_name, digest_authorization, rpc_digest_request, gen1_color_url, gen1_restore_url, gen1_send_outcome,
    gen1_state_url, gen2_brightness, info_url, model_api, restore_brightness, rpc_url, rpc_verdict, state_from_gen1,
    state_from_gen2, ApiGen, FirstStep, Sent, ShellyAuth, ShellyModel, ShellyRgbwState,
};

#[test]
fn api_generation() {
    assert_eq!(model_api(ShellyModel::Rgbw2), Some(ApiGen::Gen1));
    assert_eq!(model_api(ShellyModel::PlusRgbwPm), Some(ApiGen::Gen2));
    assert_eq!(model_api(ShellyModel::Auto), None);
    assert_eq!(detected_api(false, Some(2)), ApiGen::Gen1);
    assert_eq!(detected_api(true, Some(3)), ApiGen::Gen2);
    assert_eq!(detected_api(true, Some(1)), ApiGen::Gen1);
    assert_eq!(detected_api(true, None), ApiGen::Gen1);
}

#[test]
fn urls() {
    assert_eq!(info_url("http://a"), "http://a/shelly");
    assert_eq!(gen1_state_url("http://a"), "http://a/color/0");
    assert_eq!(rpc_url("http://a"), "http://a/rpc");
    assert_eq!(
        gen1_color_url("http://a", 255, 128, 0, 7, 95, 80, 250),
        "http://a/color/0?turn=on&red=255&green=128&blue=0&white=7&gain=80&transition=250"
    );
    assert_eq!(gen1_color_url("http://a", 0, 0, 0, 0, 0, 80, 0), "http://a/color/0?turn=on&red=0&green=0&blue=0&white=0&gain=1&transition=0");
    let st = ShellyRgbwState { on: false, r: 1, g: 2, b: 3, w: 4, brightness: 50 };
    assert_eq!(gen1_restore_url("http://a", st), "http://a/color/0?turn=off&red=1&green=2&blue=3&white=4&gain=50&transition=0");
    assert_eq!(device_name("192.168.178.32"), "shelly 192.168.178.32");
}

#[test]
fn reported_states() {
    let s = state_from_gen1(Some(true), Some(300), Some(20), None, Some(5), Some(140));
    assert_eq!(s, ShellyRgbwState { on: true, r: 44, g: 20, b: 0, w: 5, brightness: 100 });
    let s = state_from_gen2(Some(true), &vec![Some(10), None], Some(999), Some(42));
    assert_eq!(s, ShellyRgbwState { on: true, r: 10, g: 0, b: 0, w: 255, brightness: 42 });
    let s = state_from_gen2(None, &vec![], None, None);
    assert_eq!(s, ShellyRgbwState { on: false, r: 0, g: 0, b: 0, w: 0, brightness: 0 });
}

#[test]
fn brightness_clamps() {
    assert_eq!(gen2_brightness(0, 80), 1);
    assert_eq!(gen2_brightness(90, 80), 80);
    assert_eq!(restore_brightness(0), 1);
    assert_eq!(restore_brightness(150), 100);
}

#[test]
fn gen1_outcomes() {
    assert_eq!(gen1_send_outcome(Sent::TimedOut("slow".into())), Ok(Some("Gen1 Shelly timeout (ignored): slow".to_string())));
    assert_eq!(gen1_send_outcome(Sent::Failed("refused".into())), Err("Gen1 /color/0 request failed: refused".to_string()));
    assert_eq!(gen1_send_outcome(Sent::Replied { status: 200, text: "200 OK".into() }), Ok(None));
    assert_eq!(
        gen1_send_outcome(Sent::Replied { status: 500, text: "500 Internal Server Error".into() }),
        Ok(Some("Gen1 Shelly HTTP error (ignored): 500 Internal Server Error".to_string()))
    );
}

#[test]
fn gen2_first_steps() {
    assert!(matches!(after_first_send(Sent::Replied { status: 401, text: "401 Unauthorized".into() }), FirstStep::Authenticate));
    match after_first_send(Sent::TimedOut("t".into())) {
        FirstStep::Ignore(Some(m)) => assert_eq!(m, "Gen2 Shelly timeout (ignored) POST /rpc: t"),
        _ => panic!("expected an ignored timeout"),
    }
    assert!(matches!(after_first_send(Sent::Unauthorized("u".into())), FirstStep::Ignore(None)));
    match after_first_send(Sent::Failed("dns".into())) {
        FirstStep::Fail(m) => assert_eq!(m, "POST /rpc failed: dns"),
        _ => panic!("expected a failure"),
    }
    match after_first_send(Sent::Replied { status: 200, text: "200 OK".into() }) {
        FirstStep::Check { status, .. } => assert_eq!(status, 200),
        _ => panic!("expected a check"),
    }
}

#[test]
fn digest_answers() {
    let auth = Some(ShellyAuth { username: "admin".into(), password: "secret".into() });
    assert_eq!(
        digest_authorization(&None, None, b"{}", "0a4f113b").unwrap_err(),
        "Gen2 Shelly requires auth (401), but config.shelly.auth is null"
    );
    assert_eq!(digest_authorization(&auth, None, b"{}", "0a4f113b").unwrap_err(), "401 without WWW-Authenticate header");
    let challenge = "Digest qop=\"auth\", realm=\"shellyplusrgbwpm-abc\", nonce=\"60dc59c6\", algorithm=SHA-256";
    let answer = digest_authorization(&auth, Some(Ok(challenge.to_string())), b"{\"id\":1}", "0a4f113b").unwrap();
    assert!(answer.starts_with("Digest "));
    assert!(answer.contains("username=\"admin\""));
    assert!(answer.contains("uri=\"/rpc\""));
    let quoted = Some(ShellyAuth { username: "a\"b\\c".into(), password: "pw".into() });
    let answer = digest_authorization(&quoted, Some(Ok(challenge.to_string())), b"{}", "0a4f113b").unwrap();
    assert!(answer.starts_with("Digest username=\"a\\\"b\\\\c\", realm=\""));
    let bad = digest_authorization(&auth, Some(Ok("Digest nonce=\"1\"".to_string())), b"{}", "0a4f113b").unwrap_err();
    assert!(bad.starts_with("parse digest WWW-Authenticate: "));
}

#[test]
fn rpc_verdicts() {
    assert_eq!(rpc_verdict(200, "200 OK", Ok(None)), Ok(()));
    assert_eq!(rpc_verdict(500, "500 Internal Server Error", Ok(None)), Err("Gen2 Shelly RPC error: HTTP 500 Internal Server Error".to_string()));
    assert_eq!(rpc_verdict(200, "200 OK", Err("EOF".into())), Err("parse RPC JSON response: EOF".to_string()));
    assert_eq!(
        rpc_verdict(200, "200 OK", Ok(Some("{\"code\":-103}".into()))),
        Err("Gen2 Shelly RPC returned error: {\"code\":-103}".to_string())
    );
}

#[test]
fn digest_request_of_a_call() {
    let auth = ShellyAuth { username: "admin".into(), password: "secret".into() };
    let req = rpc_digest_request(&auth, b"{\"id\":1}");
    assert_eq!(req.username, "admin");
    assert_eq!(req.password, "secret");
    assert_eq!(req.uri, "/rpc");
    assert_eq!(req.body, b"{\"id\":1}".to_vec());
}

fn crate_answer(www: &str, user: &str, password: &str, body: &[u8], cnonce: &str) -> String {
    let mut header = digest_auth::parse(www).unwrap();
    let mut ctx = digest_auth::AuthContext::new_post(user, password, "/rpc", Some(body));
    ctx.set_custom_cnonce(cnonce);
    header.respond(&ctx).unwrap().to_string()
}

#[test]
fn digest_answer_covers_password_body_and_nonce() {
    let challenge = "Digest qop=\"auth-int\", realm=\"shellyplusrgbwpm-abc\", nonce=\"60dc59c6\", algorithm=SHA-256";
    let auth = Some(ShellyAuth { username: "admin".into(), password: "secret".into() });
    let body = b"{\"id\":1,\"method\":\"Light.Set\"}";
    let answer = digest_authorization(&auth, Some(Ok(challenge.to_string())), body, "0a4f113b").unwrap();
    assert_eq!(answer, crate_answer(challenge, "admin", "secret", body, "0a4f113b"));
    assert!(answer.contains("cnonce=\"0a4f113b\""));
    assert!(answer.contains("nc=00000001"));
    assert_ne!(answer, crate_answer(challenge, "admin", "", body, "0a4f113b"));
    assert_ne!(answer, crate_answer(challenge, "admin", "secret", b"{}", "0a4f113b"));
    let other_nonce = digest_authorization(&auth, Some(Ok(challenge.to_string())), body, "1b5e224c").unwrap();
    assert_ne!(answer, other_nonce);
    assert_eq!(other_nonce, crate_answer(challenge, "admin", "secret", body, "1b5e224c"));
}

#[test]
fn client_nonces_are_fresh_hex() {
    let a = client_nonce();
    let b = client_nonce();
    assert_eq!(a.len(), 32);
    assert!(a.chars().all(|c| c.is_ascii_digit() || ('a'..='f').contains(&c)));
    assert_ne!(a, b);
}
