use codex_quota::lan_server::{
    authorized, code_of_number, create_code, create_token, is_usable_pairing, pair_code_matches, pairing_info,
    pairing_or_new, PairingState,
};

fn pairing() -> PairingState {
    PairingState { code: "1234".into(), session_token: "secret".into() }
}

#[test]
fn pairing_info_contains_code_without_long_token() {
    let info = pairing_info(&pairing(), None);
    assert!(!info.address.contains("pair="));
    assert_eq!(info.code, "1234");
}

#[test]
fn pairing_address_names_the_host_and_port() {
    assert_eq!(pairing_info(&pairing(), Some("192.168.1.5")).address, "http://192.168.1.5:18765/");
    assert_eq!(pairing_info(&pairing(), None).address, "http://本机局域网IP:18765/");
}

#[test]
fn only_the_session_token_authorizes() {
    let p = pairing();
    assert!(authorized(Some("secret"), None, &p));
    assert!(authorized(None, Some("Bearer secret"), &p));
    assert!(!authorized(Some("1234"), None, &p));
    assert!(!authorized(None, Some("secret"), &p));
    assert!(!authorized(None, None, &p));
}

#[test]
fn pair_codes_ignore_surrounding_spaces() {
    assert!(pair_code_matches(" 1234 ", &pairing()));
    assert!(!pair_code_matches("1235", &pairing()));
}

#[test]
fn fresh_codes_and_tokens_have_their_shapes() {
    let code = create_code();
    assert_eq!(code.len(), 4);
    assert!(code.chars().all(|c| c.is_ascii_digit()));
    let token = create_token();
    assert_eq!(token.len(), 32);
    assert!(token.chars().all(|c| c.is_ascii_hexdigit() && !c.is_ascii_uppercase()));
    assert_eq!(code_of_number(123_456_789), "6789");
    assert_eq!(code_of_number(7), "0007");
}

#[test]
fn stored_pairings_are_checked() {
    assert!(is_usable_pairing(&pairing()));
    assert!(!is_usable_pairing(&PairingState { code: "12a4".into(), session_token: "t".into() }));
    assert!(!is_usable_pairing(&PairingState { code: "1234".into(), session_token: String::new() }));
    assert_eq!(pairing_or_new(Some(pairing())).session_token, "secret");
    assert!(is_usable_pairing(&pairing_or_new(None)));
}

#[test]
fn tokens_are_v4_uuids() {
    let token = create_token();
    let chars: Vec<char> = token.chars().collect();
    assert_eq!(chars.len(), 32);
    assert_eq!(chars[12], '4');
    assert!(matches!(chars[16], '8' | '9' | 'a' | 'b'));
}
