//! Pairing a phone on the local network, and who may read the snapshot.
use vstd::prelude::*;
use crate::text::{chars_of, has_prefix, str_eq, string_of, trim, trim_chars};

verus! {

/// Port of the local web server.
pub const LAN_PORT: u16 = 18765;

/// What the window shows to pair a phone.
#[derive(Debug, Clone)]
pub struct PairingInfo {
    pub address: String,
    pub code: String,
}

/// The four-digit pairing code and the session token it unlocks.
#[derive(Debug, Clone)]
pub struct PairingState {
    pub code: String,
    pub session_token: String,
}

/// A lowercase hexadecimal digit.
pub open spec fn is_lower_hex(c: char) -> bool {
    ('0' <= c && c <= '9') || ('a' <= c && c <= 'f')
}

/// The version and variant digits of a v4 UUID's 32-digit form: the version digit is
/// `4`, and the variant digit is one of `8`, `9`, `a`, `b`.
pub open spec fn v4_marked(s: Seq<char>) -> bool {
    &&& s[12] == '4'
    &&& s[16] == '8' || s[16] == '9' || s[16] == 'a' || s[16] == 'b'
}

/// A fresh random v4 UUID in its 32-digit `simple` form, from `uuid::Uuid::new_v4`:
/// 32 lowercase hexadecimal digits carrying the v4 version and variant digits. Which
/// random digits come back is left unsaid.
#[verifier::external_body]
fn random_simple_uuid() -> (r: String)
    ensures
        r@.len() == 32,
        forall|i: int| 0 <= i < 32 ==> is_lower_hex(#[trigger] r@[i]),
        v4_marked(r@),
{
    uuid::Uuid::new_v4().simple().to_string()
}

/// A fresh random v4 UUID as a number, from `uuid::Uuid::new_v4`.
#[verifier::external_body]
fn random_uuid_number() -> (r: u128) {
    uuid::Uuid::new_v4().as_u128()
}

/// A new session token: a random v4 UUID as 32 lowercase hexadecimal digits.
pub fn create_token() -> (r: String)
    ensures
        r@.len() == 32,
        forall|i: int| 0 <= i < 32 ==> is_lower_hex(#[trigger] r@[i]),
        v4_marked(r@),
{
    random_simple_uuid()
}

/// The decimal digit of `d`, for `d < 10`.
pub open spec fn digit_char(d: int) -> char {
    ((d + 48) as u32) as char
}

/// `n` written with four decimal digits, zeros in front.
pub open spec fn four_digits(n: int) -> Seq<char> {
    seq![digit_char(n / 1000 % 10), digit_char(n / 100 % 10), digit_char(n / 10 % 10), digit_char(n % 10)]
}

fn digit_of(d: u128) -> (c: char)
    requires
        d < 10,
    ensures
        c == digit_char(d as int),
{
    if d == 0 {
        '0'
    } else if d == 1 {
        '1'
    } else if d == 2 {
        '2'
    } else if d == 3 {
        '3'
    } else if d == 4 {
        '4'
    } else if d == 5 {
        '5'
    } else if d == 6 {
        '6'
    } else if d == 7 {
        '7'
    } else if d == 8 {
        '8'
    } else {
        '9'
    }
}

/// The code a number gives: its last four decimal digits.
pub open spec fn code_for(n: u128) -> Seq<char> {
    four_digits((n % 10000) as int)
}

/// The pairing code of a random number: its last four decimal digits.
pub fn code_of_number(n: u128) -> (r: String)
    ensures
        r@ == code_for(n),
{
    let m = n % 10000;
    let mut v: Vec<char> = Vec::new();
    v.push(digit_of(m / 1000 % 10));
    v.push(digit_of(m / 100 % 10));
    v.push(digit_of(m / 10 % 10));
    v.push(digit_of(m % 10));
    assert(v@ =~= four_digits(m as int));
    string_of(v.as_slice())
}

/// A new random four-digit pairing code.
pub fn create_code() -> (r: String)
    ensures
        exists|n: u128| r@ == #[trigger] code_for(n),
{
    code_of_number(random_uuid_number())
}

/// A decimal digit.
pub open spec fn is_digit(c: char) -> bool {
    '0' <= c && c <= '9'
}

/// A stored pairing is usable: four digits and a token.
pub open spec fn usable_pairing(state: PairingState) -> bool {
    state.code@.len() == 4 && (forall|i: int| 0 <= i < 4 ==> is_digit(#[trigger] state.code@[i]))
        && state.session_token@.len() > 0
}

/// Whether a stored pairing can be used as it is.
pub fn is_usable_pairing(state: &PairingState) -> (r: bool)
    ensures
        r == usable_pairing(*state),
{
    let code = chars_of(state.code.as_str());
    let token = chars_of(state.session_token.as_str());
    if code.len() != 4 || token.len() == 0 {
        return false;
    }
    let mut i: usize = 0;
    while i < 4
        invariant
            i <= 4,
            code@.len() == 4,
            code@ == state.code@,
            forall|j: int| 0 <= j < i ==> is_digit(#[trigger] code@[j]),
        decreases 4 - i,
    {
        if !('0' <= code[i] && code[i] <= '9') {
            return false;
        }
        i = i + 1;
    }
    true
}

/// A new pairing: a fresh code and a fresh token.
pub fn new_pairing() -> (r: PairingState)
    ensures
        usable_pairing(r),
        exists|n: u128| r.code@ == #[trigger] code_for(n),
        r.session_token@.len() == 32,
        forall|i: int| 0 <= i < 32 ==> is_lower_hex(#[trigger] r.session_token@[i]),
{
    let code = create_code();
    let session_token = create_token();
    proof {
        let n = choose|n: u128| code@ == #[trigger] code_for(n);
        let m = (n % 10000) as int;
        assert forall|i: int| 0 <= i < 4 implies is_digit(#[trigger] code@[i]) by {
            assert(0 <= m / 1000 % 10 < 10);
            assert(0 <= m / 100 % 10 < 10);
            assert(0 <= m / 10 % 10 < 10);
            assert(0 <= m % 10 < 10);
        }
    }
    PairingState { code, session_token }
}

/// The stored pairing when it is usable, else a new one.
pub fn pairing_or_new(stored: Option<PairingState>) -> (r: PairingState)
    ensures
        usable_pairing(r),
        stored is Some && usable_pairing(stored->0) ==> r == stored->0,
{
    match stored {
        Some(s) => if is_usable_pairing(&s) {
            s
        } else {
            new_pairing()
        },
        None => new_pairing(),
    }
}

/// What the window shows for pairing: the server's address on `host` (a placeholder
/// when the host's address is unknown) and the code, never the token.
pub open spec fn pairing_address(host: Option<Seq<char>>) -> Seq<char> {
    "http://"@ + match host {
        Some(h) => h,
        None => "本机局域网IP"@,
    } + ":18765/"@
}

fn push_str(v: &mut Vec<char>, s: &str)
    ensures
        final(v)@ == old(v)@ + s@,
{
    let c = chars_of(s);
    let mut i: usize = 0;
    let ghost start = v@;
    while i < c.len()
        invariant
            i <= c.len(),
            v@ == start + c@.take(i as int),
        decreases c.len() - i,
    {
        v.push(c[i]);
        assert(c@.take(i + 1) =~= c@.take(i as int).push(c@[i as int]));
        assert(v@ =~= start + c@.take(i + 1));
        i = i + 1;
    }
    assert(c@.take(c.len() as int) =~= c@);
}

/// The pairing details the window shows, for the host address found on the network.
pub fn pairing_info(state: &PairingState, host: Option<&str>) -> (r: PairingInfo)
    ensures
        r.address@ == pairing_address(
            match host {
                Some(h) => Some(h@),
                None => None,
            },
        ),
        r.code@ == state.code@,
{
    let mut v: Vec<char> = Vec::new();
    push_str(&mut v, "http://");
    match host {
        Some(h) => push_str(&mut v, h),
        None => push_str(&mut v, "本机局域网IP"),
    }
    push_str(&mut v, ":18765/");
    PairingInfo { address: string_of(v.as_slice()), code: state.code.clone() }
}

/// A request may read or change the snapshot: its `pair` query or its bearer token
/// carries the session token.
pub open spec fn is_authorized(pair: Option<Seq<char>>, authorization: Option<Seq<char>>, token: Seq<char>) -> bool {
    pair == Some(token) || match authorization {
        Some(a) => has_prefix(a, "Bearer "@) && a.skip(7) == token,
        None => false,
    }
}

/// Whether a request may read or change the snapshot, from its `pair` query parameter
/// and its `Authorization` header.
pub fn authorized(pair: Option<&str>, authorization: Option<&str>, pairing: &PairingState) -> (r: bool)
    ensures
        r == is_authorized(
            match pair {
                Some(p) => Some(p@),
                None => None,
            },
            match authorization {
                Some(a) => Some(a@),
                None => None,
            },
            pairing.session_token@,
        ),
{
    if let Some(p) = pair {
        if str_eq(p, pairing.session_token.as_str()) {
            return true;
        }
    }
    match authorization {
        Some(a) => {
            let ac = chars_of(a);
            let prefix = chars_of("Bearer ");
            proof {
                reveal_strlit("Bearer ");
            }
            if !crate::text::starts_with_chars(ac.as_slice(), prefix.as_slice()) {
                return false;
            }
            let rest = crate::text::skip_chars(ac.as_slice(), 7);
            let token = chars_of(pairing.session_token.as_str());
            crate::text::seq_eq(rest.as_slice(), token.as_slice())
        },
        None => false,
    }
}

/// The code typed on the phone matches the pairing code, spaces around it aside.
pub fn pair_code_matches(code: &str, pairing: &PairingState) -> (r: bool)
    ensures
        r == (trim(code@) == pairing.code@),
{
    let c = chars_of(code);
    let t = trim_chars(c.as_slice());
    let p = chars_of(pairing.code.as_str());
    crate::text::seq_eq(t.as_slice(), p.as_slice())
}

} // verus!
