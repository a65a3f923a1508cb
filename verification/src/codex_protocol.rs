//! Responses and notifications of the Codex app-server, as the window reads them.
use vstd::prelude::*;
use crate::domain::or_opt;
use crate::text::{ascii_lower, ascii_lower_str, has_infix, has_text, is_text, chars_of, first_nonblank, first_nonblank_line, lines, string_of, take_chars, take_chars_exec, trim, trim_chars};
use crate::json::{
    array_of, bool_of, deref_opt, either, either_ref, get, get_member, i64_of, id_text, id_text_of,
    is_object, json_array, json_bool, json_i64, json_pos_u64, json_str, json_u64, owned_str_of, parse_json,
    parsed_json, pos_u64_of, str_of, u64_of, JsonValue,
};

verus! {

#[verifier::external_type_specification]
#[verifier::external_body]
pub struct ExJsonError(serde_json::Error);

/// Why a Codex response could not be read.
#[derive(Debug)]
pub enum ProtocolError {
    /// The text is not JSON.
    Json(serde_json::Error),
    /// A required field is absent.
    Missing(&'static str),
    /// A field has the wrong type.
    Invalid(&'static str),
}

/// Weekly and five-hour quota as read from `account/rateLimits/read`.
#[derive(Debug, Clone, PartialEq, Eq)]
pub struct RateLimitResponse {
    pub remaining_percent: Option<u8>,
    pub resets_at: Option<i64>,
    pub five_hour_remaining_percent: Option<u8>,
    pub five_hour_resets_at: Option<i64>,
    pub plan: Option<String>,
    pub reset_credits: Option<u64>,
}

/// Token usage of the day as read from `account/usage/read`.
#[derive(Debug, Clone, PartialEq, Eq)]
pub struct UsageResponse {
    pub today_tokens: Option<u64>,
    pub usage_date: Option<String>,
}

/// One entry of `thread/list`.
#[derive(Debug, Clone, PartialEq, Eq)]
pub struct ThreadSummary {
    pub id: String,
    pub title: String,
    pub status: String,
    pub updated_at: i64,
    pub path: Option<String>,
}

/// A task notification of the app-server, reduced to what the task list needs.
#[derive(Debug, Clone, PartialEq, Eq)]
pub struct NormalizedTaskEvent {
    pub id: String,
    pub turn_id: Option<String>,
    pub item_id: Option<String>,
    pub request_id: Option<String>,
    pub resolved_request_id: Option<String>,
    pub title: String,
    pub waiting_reason: Option<String>,
    pub approval_request_id: Option<String>,
    pub waiting_for_user: bool,
    pub running: bool,
    pub completed: bool,
    pub token_count: Option<u64>,
    pub updated_at: i64,
}


/// The characters of an optional string.
pub open spec fn opt_view(o: Option<String>) -> Option<Seq<char>> {
    match o {
        Some(s) => Some(s@),
        None => None,
    }
}

/// The answer inside a JSON-RPC reply: its `result` member when it has one.
pub open spec fn payload(doc: JsonValue) -> JsonValue {
    match get(Some(doc), "result"@) {
        Some(r) => r,
        None => doc,
    }
}

/// `rateLimits` or `rate_limits`, else the answer itself.
pub open spec fn limits_of(root: JsonValue) -> Option<JsonValue> {
    either(get(Some(root), "rateLimits"@), either(get(Some(root), "rate_limits"@), Some(root)))
}

/// The weekly window.
pub open spec fn primary_of(root: JsonValue) -> Option<JsonValue> {
    let snap = limits_of(root);
    either(
        get(snap, "primary"@),
        either(
            get(snap, "individualLimit"@),
            either(get(Some(root), "primary"@), either(get(Some(root), "rate_limit"@), snap)),
        ),
    )
}

/// The five-hour window.
pub open spec fn five_hour_of(root: JsonValue) -> Option<JsonValue> {
    let snap = limits_of(root);
    either(
        get(snap, "secondary"@),
        either(get(snap, "secondaryLimit"@), either(get(snap, "fiveHour"@), get(snap, "five_hour"@))),
    )
}

/// `a.saturating_sub(b)` on `u64`.
pub open spec fn sub_floor(a: u64, b: u64) -> int {
    if a > b {
        a - b
    } else {
        0
    }
}

/// Percent left as the window states it, or as 100 minus the percent used.
pub open spec fn stated_percent(window: Option<JsonValue>) -> Option<u64> {
    or_opt(
        json_u64(either(get(window, "remaining_percent"@), get(window, "remainingPercent"@))),
        match json_u64(get(window, "usedPercent"@)) {
            Some(u) => Some(sub_floor(100, u) as u64),
            None => None,
        },
    )
}

/// Percent left computed from the window's limit and use.
pub open spec fn counted_percent(window: Option<JsonValue>) -> Option<u64> {
    match (json_u64(get(window, "limit"@)), json_u64(get(window, "used"@))) {
        (Some(l), Some(u)) => Some(
            ((sub_floor(l, u) * 100) / (if l > 1 {
                l as int
            } else {
                1
            })) as u64,
        ),
        _ => None,
    }
}

/// The window's limit and use can be turned into a percentage without overflow.
pub open spec fn percent_fits(window: Option<JsonValue>) -> bool {
    stated_percent(window) is None ==> match (json_u64(get(window, "limit"@)), json_u64(get(window, "used"@))) {
        (Some(l), Some(u)) => sub_floor(l, u) * 100 <= u64::MAX,
        _ => true,
    }
}

/// At most 100.
pub open spec fn capped(v: Option<u64>) -> Option<u8> {
    match v {
        Some(x) => Some(if x > 100 {
            100u8
        } else {
            x as u8
        }),
        None => None,
    }
}

/// Percent of the weekly quota left.
pub open spec fn weekly_left(root: JsonValue) -> Option<u8> {
    let p = primary_of(root);
    capped(or_opt(stated_percent(p), counted_percent(p)))
}

/// When the weekly quota resets.
pub open spec fn weekly_resets(root: JsonValue) -> Option<i64> {
    let p = primary_of(root);
    json_i64(either(get(p, "resets_at"@), either(get(p, "reset_at"@), get(p, "resetsAt"@))))
}

/// Percent of the five-hour quota left.
pub open spec fn five_hour_left(root: JsonValue) -> Option<u8> {
    capped(stated_percent(five_hour_of(root)))
}

/// When the five-hour quota resets.
pub open spec fn five_hour_resets(root: JsonValue) -> Option<i64> {
    let w = five_hour_of(root);
    json_i64(either(get(w, "resets_at"@), get(w, "resetsAt"@)))
}

/// The plan name.
pub open spec fn plan_of(root: JsonValue) -> Option<Seq<char>> {
    let snap = limits_of(root);
    json_str(
        either(
            get(snap, "planType"@),
            either(get(snap, "plan"@), either(get(Some(root), "plan"@), get(Some(root), "plan_name"@))),
        ),
    )
}

/// How many quota resets are left.
pub open spec fn credits_left(root: JsonValue) -> Option<u64> {
    let r = Some(root);
    let credits = either(
        get(r, "rateLimitResetCredits"@),
        either(get(r, "credits"@), either(get(r, "reset_credits"@), get(r, "resetCredits"@))),
    );
    let counted = match credits {
        Some(_) => or_opt(
            json_pos_u64(credits),
            or_opt(json_u64(get(credits, "remaining"@)), json_u64(get(credits, "count"@))),
        ),
        None => None,
    };
    or_opt(counted, json_u64(get(credits, "availableCount"@)))
}

/// `r` is what the rate-limit answer `root` says: an error when it names neither a
/// percentage, a reset time nor a plan.
pub open spec fn rate_limits_read(root: JsonValue, r: Result<RateLimitResponse, ProtocolError>) -> bool {
    if weekly_left(root) is None && weekly_resets(root) is None && plan_of(root) is None {
        r matches Err(ProtocolError::Missing(m)) && m@ == "primary"@
    } else {
        r matches Ok(v) && v.remaining_percent == weekly_left(root) && v.resets_at == weekly_resets(root)
            && opt_view(v.plan) == plan_of(root) && v.reset_credits == credits_left(root)
            && v.five_hour_remaining_percent == five_hour_left(root) && v.five_hour_resets_at
            == five_hour_resets(root)
    }
}

/// The percent left of a window that states only how much is used.
pub open spec fn left_of_used(u: u64) -> Option<u8> {
    Some(if u >= 100 {
        0u8
    } else {
        (100 - u) as u8
    })
}

/// A window that states only the percent used leaves 100 minus that percent, and
/// nothing when all is used: so the reply reads the weekly quota left, and the
/// five-hour quota left, from `usedPercent` that way. A window that states the percent
/// left gives that percent, at most 100.
pub proof fn law_used_percent_leaves_the_rest(
    root: JsonValue,
    r: Result<RateLimitResponse, ProtocolError>,
    u: u64,
    x: u64,
)
    requires
        rate_limits_read(root, r),
        r is Ok,
    ensures
        ({
            let w = five_hour_of(root);
            json_u64(either(get(w, "remaining_percent"@), get(w, "remainingPercent"@))) == Some(x)
                ==> r->Ok_0.five_hour_remaining_percent == Some(if x > 100 { 100u8 } else { x as u8 })
        }),
        ({
            let p = primary_of(root);
            json_u64(either(get(p, "remaining_percent"@), get(p, "remainingPercent"@))) == Some(x)
                ==> r->Ok_0.remaining_percent == Some(if x > 100 { 100u8 } else { x as u8 })
        }),
        ({
            let w = five_hour_of(root);
            get(w, "remaining_percent"@) is None && get(w, "remainingPercent"@) is None && json_u64(
                get(w, "usedPercent"@),
            ) == Some(u) ==> r->Ok_0.five_hour_remaining_percent == left_of_used(u)
        }),
        ({
            let p = primary_of(root);
            get(p, "remaining_percent"@) is None && get(p, "remainingPercent"@) is None && json_u64(
                get(p, "usedPercent"@),
            ) == Some(u) ==> r->Ok_0.remaining_percent == left_of_used(u)
        }),
{
}

/// The `result` member of a reply, or the reply itself.
pub fn payload_of(doc: &JsonValue) -> (r: &JsonValue)
    ensures
        *r == payload(*doc),
{
    match get_member(Some(doc), "result") {
        Some(r) => r,
        None => doc,
    }
}

fn limits_in(root: &JsonValue) -> (r: Option<&JsonValue>)
    ensures
        deref_opt(r) == limits_of(*root),
{
    either_ref(get_member(Some(root), "rateLimits"), either_ref(get_member(Some(root), "rate_limits"), Some(root)))
}

fn primary_in(root: &JsonValue) -> (r: Option<&JsonValue>)
    ensures
        deref_opt(r) == primary_of(*root),
{
    let snap = limits_in(root);
    either_ref(
        get_member(snap, "primary"),
        either_ref(
            get_member(snap, "individualLimit"),
            either_ref(get_member(Some(root), "primary"), either_ref(get_member(Some(root), "rate_limit"), snap)),
        ),
    )
}

fn five_hour_in(root: &JsonValue) -> (r: Option<&JsonValue>)
    ensures
        deref_opt(r) == five_hour_of(*root),
{
    let snap = limits_in(root);
    either_ref(
        get_member(snap, "secondary"),
        either_ref(get_member(snap, "secondaryLimit"), either_ref(get_member(snap, "fiveHour"), get_member(snap, "five_hour"))),
    )
}

fn or_u64(a: Option<u64>, b: Option<u64>) -> (r: Option<u64>)
    ensures
        r == or_opt(a, b),
{
    match a {
        Some(x) => Some(x),
        None => b,
    }
}

fn stated_percent_in(window: Option<&JsonValue>) -> (r: Option<u64>)
    ensures
        r == stated_percent(deref_opt(window)),
{
    let direct = u64_of(either_ref(get_member(window, "remaining_percent"), get_member(window, "remainingPercent")));
    let from_used = match u64_of(get_member(window, "usedPercent")) {
        Some(u) => Some(if u < 100 {
            100 - u
        } else {
            0
        }),
        None => None,
    };
    or_u64(direct, from_used)
}

fn percent_fits_in(window: Option<&JsonValue>) -> (r: bool)
    ensures
        r == percent_fits(deref_opt(window)),
{
    if stated_percent_in(window).is_some() {
        return true;
    }
    match (u64_of(get_member(window, "limit")), u64_of(get_member(window, "used"))) {
        (Some(l), Some(u)) => {
            let d = if l > u {
                l - u
            } else {
                0
            };
            d <= u64::MAX / 100
        },
        _ => true,
    }
}

fn capped_exec(v: Option<u64>) -> (r: Option<u8>)
    ensures
        r == capped(v),
{
    match v {
        Some(x) => Some(if x > 100 {
            100u8
        } else {
            x as u8
        }),
        None => None,
    }
}

fn weekly_left_in(root: &JsonValue) -> (r: Option<u8>)
    requires
        percent_fits(primary_of(*root)),
    ensures
        r == weekly_left(*root),
{
    let p = primary_in(root);
    let stated = stated_percent_in(p);
    let v = match stated {
        Some(x) => Some(x),
        None => match (u64_of(get_member(p, "limit")), u64_of(get_member(p, "used"))) {
            (Some(l), Some(u)) => {
                let d = if l > u {
                    l - u
                } else {
                    0
                };
                let m = if l > 1 {
                    l
                } else {
                    1
                };
                Some(d * 100 / m)
            },
            _ => None,
        },
    };
    capped_exec(v)
}

/// Reads a rate-limit reply that `serde_json` has parsed.
pub fn rate_limits_from_json(doc: &JsonValue) -> (r: Result<RateLimitResponse, ProtocolError>)
    requires
        percent_fits(primary_of(payload(*doc))),
    ensures
        rate_limits_read(payload(*doc), r),
{
    let root = payload_of(doc);
    let p = primary_in(root);
    let remaining_percent = weekly_left_in(root);
    let resets_at = i64_of(
        either_ref(get_member(p, "resets_at"), either_ref(get_member(p, "reset_at"), get_member(p, "resetsAt"))),
    );
    let w = five_hour_in(root);
    let five_hour_remaining_percent = capped_exec(stated_percent_in(w));
    let five_hour_resets_at = i64_of(either_ref(get_member(w, "resets_at"), get_member(w, "resetsAt")));
    let r = Some(root);
    let credits = either_ref(
        get_member(r, "rateLimitResetCredits"),
        either_ref(get_member(r, "credits"), either_ref(get_member(r, "reset_credits"), get_member(r, "resetCredits"))),
    );
    let counted = match credits {
        Some(_) => or_u64(
            pos_u64_of(credits),
            or_u64(u64_of(get_member(credits, "remaining")), u64_of(get_member(credits, "count"))),
        ),
        None => None,
    };
    let reset_credits = or_u64(counted, u64_of(get_member(credits, "availableCount")));
    let snap = limits_in(root);
    let plan = owned_str_of(
        either_ref(
            get_member(snap, "planType"),
            either_ref(get_member(snap, "plan"), either_ref(get_member(r, "plan"), get_member(r, "plan_name"))),
        ),
    );
    if remaining_percent.is_none() && resets_at.is_none() && plan.is_none() {
        return Err(ProtocolError::Missing("primary"));
    }
    Ok(
        RateLimitResponse {
            remaining_percent,
            resets_at,
            five_hour_remaining_percent,
            five_hour_resets_at,
            plan,
            reset_credits,
        },
    )
}

/// Reads the reply to `account/rateLimits/read`. A limit so large that its percentage
/// cannot be computed is refused as invalid.
pub fn parse_rate_limits(input: &str) -> (r: Result<RateLimitResponse, ProtocolError>)
    ensures
        match parsed_json(input@) {
            None => r matches Err(ProtocolError::Json(_)),
            Some(doc) => if percent_fits(primary_of(payload(doc))) {
                rate_limits_read(payload(doc), r)
            } else {
                r matches Err(ProtocolError::Invalid(m)) && m@ == "limit"@
            },
        },
{
    let doc = match parse_json(input) {
        Ok(d) => d,
        Err(e) => return Err(ProtocolError::Json(e)),
    };
    if !percent_fits_in(primary_in(payload_of(&doc))) {
        return Err(ProtocolError::Invalid("limit"));
    }
    rate_limits_from_json(&doc)
}


/// `a <= b` in the order of `str`: character by character.
pub open spec fn text_le(a: Seq<char>, b: Seq<char>) -> bool
    decreases a.len(),
{
    if a.len() == 0 {
        true
    } else if b.len() == 0 {
        false
    } else if a[0] != b[0] {
        (a[0] as u32) < (b[0] as u32)
    } else {
        text_le(a.drop_first(), b.drop_first())
    }
}

fn text_le_exec(a: &[char], b: &[char]) -> (r: bool)
    ensures
        r == text_le(a@, b@),
{
    let mut i: usize = 0;
    assert(a@.skip(0) =~= a@);
    assert(b@.skip(0) =~= b@);
    while i < a.len() && i < b.len() && a[i] == b[i]
        invariant
            i <= a.len(),
            i <= b.len(),
            text_le(a@, b@) == text_le(a@.skip(i as int), b@.skip(i as int)),
        decreases a.len() - i,
    {
        assert(a@.skip(i as int).drop_first() =~= a@.skip(i + 1));
        assert(b@.skip(i as int).drop_first() =~= b@.skip(i + 1));
        i = i + 1;
    }
    if i == a.len() {
        assert(a@.skip(i as int).len() == 0);
        true
    } else if i == b.len() {
        assert(b@.skip(i as int).len() == 0);
        false
    } else {
        assert(a@.skip(i as int)[0] == a@[i as int]);
        assert(b@.skip(i as int)[0] == b@[i as int]);
        (a[i] as u32) < (b[i] as u32)
    }
}

/// Tokens the usage answer states for today directly.
pub open spec fn explicit_tokens(root: JsonValue) -> Option<u64> {
    let r = Some(root);
    json_u64(either(get(r, "today_tokens"@), either(get(r, "todayTokens"@), get(r, "tokens"@))))
}

/// The day a usage bucket starts.
pub open spec fn bucket_date(b: JsonValue) -> Option<Seq<char>> {
    json_str(get(Some(b), "startDate"@))
}

/// Index of the first bucket of the day `today`.
pub open spec fn bucket_for_day(buckets: Seq<JsonValue>, today: Seq<char>) -> Option<int>
    decreases buckets.len(),
{
    if buckets.len() == 0 {
        None
    } else {
        match bucket_for_day(buckets.drop_last(), today) {
            Some(i) => Some(i),
            None => if bucket_date(buckets.last()) == Some(today) {
                Some(buckets.len() - 1)
            } else {
                None
            },
        }
    }
}

/// Index of the bucket with the latest day, the last one among equals.
pub open spec fn latest_bucket(buckets: Seq<JsonValue>) -> Option<int>
    decreases buckets.len(),
{
    if buckets.len() == 0 {
        None
    } else {
        let best = latest_bucket(buckets.drop_last());
        match bucket_date(buckets.last()) {
            Some(d) => match best {
                Some(i) => if text_le(bucket_date(buckets[i])->0, d) {
                    Some(buckets.len() - 1)
                } else {
                    Some(i)
                },
                None => Some(buckets.len() - 1),
            },
            None => best,
        }
    }
}

proof fn lemma_latest_bucket(buckets: Seq<JsonValue>)
    ensures
        latest_bucket(buckets) matches Some(i) ==> 0 <= i < buckets.len() && bucket_date(buckets[i]) is Some,
    decreases buckets.len(),
{
    if buckets.len() > 0 {
        let p = buckets.drop_last();
        lemma_latest_bucket(p);
        if latest_bucket(p) is Some {
            assert(p[latest_bucket(p)->0] == buckets[latest_bucket(p)->0]);
        }
    }
}

/// `r` is what the usage answer `root` says when today is `today`: the tokens stated
/// directly, else those of today's bucket, else those of the latest bucket.
pub open spec fn usage_read(root: JsonValue, today: Seq<char>, r: Result<UsageResponse, ProtocolError>) -> bool {
    match explicit_tokens(root) {
        Some(t) => r matches Ok(u) && u.today_tokens == Some(t) && u.usage_date is None,
        None => match json_array(get(Some(root), "dailyUsageBuckets"@)) {
            None => r matches Err(ProtocolError::Missing(m)) && m@ == "dailyUsageBuckets"@,
            Some(bs) => {
                let pick = or_opt(bucket_for_day(bs, today), latest_bucket(bs));
                let tokens = match pick {
                    Some(i) => json_u64(get(Some(bs[i]), "tokens"@)),
                    None => None,
                };
                match tokens {
                    None => r matches Err(ProtocolError::Missing(m)) && m@ == "today_tokens"@,
                    Some(t) => r matches Ok(u) && u.today_tokens == Some(t) && opt_view(u.usage_date)
                        == bucket_date(bs[pick->0]),
                }
            },
        },
    }
}

fn date_of(b: &JsonValue) -> (r: Option<&String>)
    ensures
        match r {
            Some(s) => bucket_date(*b) == Some(s@),
            None => bucket_date(*b) is None,
        },
{
    str_of(get_member(Some(b), "startDate"))
}

fn bucket_for_day_in(buckets: &Vec<JsonValue>, today: &str) -> (r: Option<usize>)
    ensures
        match r {
            Some(i) => bucket_for_day(buckets@, today@) == Some(i as int) && i < buckets.len(),
            None => bucket_for_day(buckets@, today@) is None,
        },
{
    let mut i: usize = 0;
    while i < buckets.len()
        invariant
            i <= buckets.len(),
            bucket_for_day(buckets@.take(i as int), today@) is None,
        decreases buckets.len() - i,
    {
        let ghost t = buckets@.take(i + 1);
        assert(t.drop_last() =~= buckets@.take(i as int));
        let hit = match date_of(&buckets[i]) {
            Some(d) => crate::text::str_eq(d.as_str(), today),
            None => false,
        };
        if hit {
            proof {
                lemma_first_bucket_prefix(buckets@, i as int, today@);
            }
            return Some(i);
        }
        i = i + 1;
    }
    assert(buckets@.take(buckets.len() as int) =~= buckets@);
    None
}

proof fn lemma_first_bucket_prefix(buckets: Seq<JsonValue>, i: int, today: Seq<char>)
    requires
        0 <= i < buckets.len(),
        bucket_for_day(buckets.take(i), today) is None,
        bucket_date(buckets[i]) == Some(today),
    ensures
        bucket_for_day(buckets, today) == Some(i),
    decreases buckets.len(),
{
    if i + 1 < buckets.len() {
        let d = buckets.drop_last();
        assert(d.take(i) =~= buckets.take(i));
        lemma_first_bucket_prefix(d, i, today);
    } else {
        assert(buckets.drop_last() =~= buckets.take(i));
    }
}

fn latest_bucket_in(buckets: &Vec<JsonValue>) -> (r: Option<usize>)
    ensures
        match r {
            Some(i) => latest_bucket(buckets@) == Some(i as int) && i < buckets.len(),
            None => latest_bucket(buckets@) is None,
        },
{
    let mut best: Option<usize> = None;
    let mut i: usize = 0;
    while i < buckets.len()
        invariant
            i <= buckets.len(),
            match best {
                Some(b) => latest_bucket(buckets@.take(i as int)) == Some(b as int) && b < i,
                None => latest_bucket(buckets@.take(i as int)) is None,
            },
        decreases buckets.len() - i,
    {
        let ghost t = buckets@.take(i + 1);
        assert(t.drop_last() =~= buckets@.take(i as int));
        assert(t.last() == buckets@[i as int]);
        proof {
            lemma_latest_bucket(buckets@.take(i as int));
        }
        match date_of(&buckets[i]) {
            Some(d) => {
                match best {
                    Some(b) => {
                        assert(buckets@.take(i as int)[b as int] == buckets@[b as int]);
                        assert(t[b as int] == buckets@[b as int]);
                        let bd = date_of(&buckets[b]);
                        let cur = match bd {
                            Some(x) => crate::text::chars_of(x.as_str()),
                            None => Vec::new(),
                        };
                        let dc = crate::text::chars_of(d.as_str());
                        if text_le_exec(cur.as_slice(), dc.as_slice()) {
                            best = Some(i);
                        }
                    },
                    None => {
                        best = Some(i);
                    },
                }
            },
            None => {},
        }
        i = i + 1;
    }
    assert(buckets@.take(buckets.len() as int) =~= buckets@);
    best
}

/// A decimal digit.
pub open spec fn is_digit(c: char) -> bool {
    '0' <= c <= '9'
}

/// A date as `time::Date`'s `Display` writes it for the years it can hold: four year
/// digits, with a `-` in front before year 0, then `-MM-DD`.
pub open spec fn is_date_text(s: Seq<char>) -> bool {
    let o = s.len() - 10;
    &&& s.len() == 10 || (s.len() == 11 && s[0] == '-')
    &&& forall|k: int| 0 <= k < 10 && k != 4 && k != 7 ==> is_digit(#[trigger] s[o + k])
    &&& s[o + 4] == '-'
    &&& s[o + 7] == '-'
}

/// The current date in UTC, from `time::OffsetDateTime::now_utc`, written by
/// `time::Date`'s `Display`; which date the clock gives is left unsaid.
#[verifier::external_body]
fn today_utc() -> (r: String)
    ensures
        is_date_text(r@),
{
    time::OffsetDateTime::now_utc().date().to_string()
}

/// Reads a usage reply that `serde_json` has parsed, `today` being the current date.
pub fn usage_from_json(doc: &JsonValue, today: &str) -> (r: Result<UsageResponse, ProtocolError>)
    ensures
        usage_read(payload(*doc), today@, r),
{
    let root = payload_of(doc);
    let r = Some(root);
    let explicit = u64_of(
        either_ref(get_member(r, "today_tokens"), either_ref(get_member(r, "todayTokens"), get_member(r, "tokens"))),
    );
    if let Some(t) = explicit {
        return Ok(UsageResponse { today_tokens: Some(t), usage_date: None });
    }
    let buckets = match array_of(get_member(r, "dailyUsageBuckets")) {
        Some(b) => b,
        None => return Err(ProtocolError::Missing("dailyUsageBuckets")),
    };
    proof {
        lemma_latest_bucket(buckets@);
    }
    let pick = match bucket_for_day_in(buckets, today) {
        Some(i) => Some(i),
        None => latest_bucket_in(buckets),
    };
    let i = match pick {
        Some(i) => i,
        None => return Err(ProtocolError::Missing("today_tokens")),
    };
    let tokens = match u64_of(get_member(Some(&buckets[i]), "tokens")) {
        Some(t) => t,
        None => return Err(ProtocolError::Missing("today_tokens")),
    };
    let usage_date = match date_of(&buckets[i]) {
        Some(d) => Some(d.clone()),
        None => None,
    };
    Ok(UsageResponse { today_tokens: Some(tokens), usage_date })
}

/// Reads the reply to `account/usage/read`, for the current UTC date.
pub fn parse_usage(input: &str) -> (r: Result<UsageResponse, ProtocolError>)
    ensures
        match parsed_json(input@) {
            None => r matches Err(ProtocolError::Json(_)),
            Some(doc) => exists|today: Seq<char>| is_date_text(today) && usage_read(payload(doc), today, r),
        },
{
    let doc = match parse_json(input) {
        Ok(d) => d,
        Err(e) => return Err(ProtocolError::Json(e)),
    };
    let today = today_utc();
    usage_from_json(&doc, today.as_str())
}


/// Title used for a thread or task that has none.
pub open spec fn default_task_title() -> Seq<char> {
    "Codex 任务"@
}

/// A thread's title: its name, else the first non-blank line of its preview, trimmed
/// and cut to 80 characters.
pub open spec fn thread_title(t: JsonValue) -> Seq<char> {
    let raw = match json_str(get(Some(t), "name"@)) {
        Some(n) => n,
        None => match json_str(get(Some(t), "preview"@)) {
            Some(p) => match first_nonblank(lines(p)) {
                Some(l) => l,
                None => default_task_title(),
            },
            None => default_task_title(),
        },
    };
    take_chars(trim(raw), 80)
}

/// A thread's status: `status.type`, else `status` itself, else `notLoaded`.
pub open spec fn thread_status_name(t: JsonValue) -> Seq<char> {
    let st = get(Some(t), "status"@);
    match or_opt(json_str(get(st, "type"@)), json_str(st)) {
        Some(s) => s,
        None => "notLoaded"@,
    }
}

/// When a thread was last updated; 0 when it does not say.
pub open spec fn thread_updated_at(t: JsonValue) -> i64 {
    match json_i64(either(get(Some(t), "updatedAt"@), get(Some(t), "updated_at"@))) {
        Some(x) => x,
        None => 0,
    }
}

/// `r` is the summary of the thread entry `t`.
pub open spec fn thread_read(t: JsonValue, r: ThreadSummary) -> bool {
    &&& json_str(get(Some(t), "id"@)) == Some(r.id@)
    &&& r.title@ == thread_title(t)
    &&& r.status@ == thread_status_name(t)
    &&& r.updated_at == thread_updated_at(t)
    &&& opt_view(r.path) == json_str(get(Some(t), "path"@))
}

/// The entries that carry a string id, in order.
pub open spec fn with_string_id(items: Seq<JsonValue>) -> Seq<JsonValue>
    decreases items.len(),
{
    if items.len() == 0 {
        Seq::empty()
    } else {
        let rest = with_string_id(items.drop_last());
        if json_str(get(Some(items.last()), "id"@)) is Some {
            rest.push(items.last())
        } else {
            rest
        }
    }
}

/// `r` is what the thread list `root` says: every entry with a string id, summarised.
pub open spec fn threads_read(root: JsonValue, r: Result<Vec<ThreadSummary>, ProtocolError>) -> bool {
    match json_array(get(Some(root), "data"@)) {
        None => r matches Err(ProtocolError::Missing(m)) && m@ == "data"@,
        Some(items) => r matches Ok(v) && v@.len() == with_string_id(items).len() && forall|i: int|
            0 <= i < v@.len() ==> thread_read(with_string_id(items)[i], #[trigger] v@[i]),
    }
}

fn thread_of(t: &JsonValue) -> (r: Option<ThreadSummary>)
    ensures
        match r {
            Some(x) => thread_read(*t, x),
            None => json_str(get(Some(*t), "id"@)) is None,
        },
{
    let o = Some(t);
    let id = match owned_str_of(get_member(o, "id")) {
        Some(id) => id,
        None => return None,
    };
    let raw: Vec<char> = match str_of(get_member(o, "name")) {
        Some(n) => chars_of(n.as_str()),
        None => match str_of(get_member(o, "preview")) {
            Some(p) => {
                let pc = chars_of(p.as_str());
                match first_nonblank_line(pc.as_slice()) {
                    Some(l) => l,
                    None => chars_of("Codex 任务"),
                }
            },
            None => chars_of("Codex 任务"),
        },
    };
    let trimmed = trim_chars(raw.as_slice());
    let title = string_of(take_chars_exec(trimmed.as_slice(), 80).as_slice());
    let st = get_member(o, "status");
    let status = match str_of(get_member(st, "type")) {
        Some(x) => x.clone(),
        None => match str_of(st) {
            Some(x) => x.clone(),
            None => "notLoaded".to_owned(),
        },
    };
    let updated_at = match i64_of(either_ref(get_member(o, "updatedAt"), get_member(o, "updated_at"))) {
        Some(x) => x,
        None => 0,
    };
    let path = owned_str_of(get_member(o, "path"));
    Some(ThreadSummary { id, title, status, updated_at, path })
}

/// Reads a thread-list reply that `serde_json` has parsed.
pub fn threads_from_json(doc: &JsonValue) -> (r: Result<Vec<ThreadSummary>, ProtocolError>)
    ensures
        threads_read(payload(*doc), r),
{
    let root = payload_of(doc);
    let items = match array_of(get_member(Some(root), "data")) {
        Some(items) => items,
        None => return Err(ProtocolError::Missing("data")),
    };
    let mut r: Vec<ThreadSummary> = Vec::new();
    let mut i: usize = 0;
    while i < items.len()
        invariant
            i <= items.len(),
            r@.len() == with_string_id(items@.take(i as int)).len(),
            forall|j: int|
                0 <= j < r@.len() ==> thread_read(with_string_id(items@.take(i as int))[j], #[trigger] r@[j]),
        decreases items.len() - i,
    {
        let ghost before = with_string_id(items@.take(i as int));
        assert(items@.take(i + 1).drop_last() =~= items@.take(i as int));
        assert(items@.take(i + 1).last() == items@[i as int]);
        match thread_of(&items[i]) {
            Some(t) => {
                r.push(t);
                assert(with_string_id(items@.take(i + 1)) == before.push(items@[i as int]));
            },
            None => {},
        }
        i = i + 1;
    }
    assert(items@.take(items.len() as int) =~= items@);
    Ok(r)
}

/// Reads the reply to `thread/list`.
pub fn parse_threads(input: &str) -> (r: Result<Vec<ThreadSummary>, ProtocolError>)
    ensures
        match parsed_json(input@) {
            None => r matches Err(ProtocolError::Json(_)),
            Some(doc) => threads_read(payload(doc), r),
        },
{
    let doc = match parse_json(input) {
        Ok(d) => d,
        Err(e) => return Err(ProtocolError::Json(e)),
    };
    threads_from_json(&doc)
}


/// The parameters of a notification: `params`, else the message itself.
pub open spec fn event_params(root: JsonValue) -> Option<JsonValue> {
    either(get(Some(root), "params"@), Some(root))
}

/// The thread a notification is about.
pub open spec fn event_thread_id(root: JsonValue) -> Option<Seq<char>> {
    let p = event_params(root);
    let item = get(p, "item"@);
    or_opt(
        json_str(
            either(
                get(p, "thread_id"@),
                either(
                    get(p, "threadId"@),
                    either(
                        get(p, "id"@),
                        either(get(p, "turnId"@), either(get(item, "threadId"@), get(item, "thread_id"@))),
                    ),
                ),
            ),
        ),
        json_str(get(get(p, "thread"@), "id"@)),
    )
}

/// The title a notification gives its thread.
pub open spec fn event_title(root: JsonValue) -> Seq<char> {
    let p = event_params(root);
    match or_opt(
        json_str(either(get(p, "title"@), either(get(p, "name"@), get(p, "threadName"@)))),
        json_str(get(get(p, "thread"@), "name"@)),
    ) {
        Some(t) => t,
        None => default_task_title(),
    }
}

/// The notification's method, event or type, in lower case.
pub open spec fn event_kind(root: JsonValue) -> Seq<char> {
    let r = Some(root);
    match json_str(either(get(r, "method"@), either(get(r, "event"@), get(r, "type"@)))) {
        Some(k) => ascii_lower(k),
        None => Seq::empty(),
    }
}

/// The `type` of the notification's `status` (or the status itself), in lower case.
pub open spec fn event_status_type(root: JsonValue) -> Seq<char> {
    match get(event_params(root), "status"@) {
        Some(v) => match json_str(either(get(Some(v), "type"@), Some(v))) {
            Some(t) => ascii_lower(t),
            None => Seq::empty(),
        },
        None => Seq::empty(),
    }
}

/// Kinds of request that ask the user for a decision.
pub open spec fn asks_for_decision(kind: Seq<char>) -> bool {
    has_infix(kind, "approval"@) || has_infix(kind, "requestuserinput"@) || has_infix(kind, "elicitation/request"@)
}

/// Kinds of notification that report a request as answered.
pub open spec fn reports_resolution(kind: Seq<char>) -> bool {
    has_infix(kind, "serverrequest/resolved"@) || has_infix(kind, "request/resolved"@)
}

pub open spec fn is_approval_method(kind: Seq<char>) -> bool {
    kind == "approval_required"@ || kind == "item/commandexecution/requestapproval"@ || kind
        == "item/tool/requestuserinput"@ || kind == "serverrequest/approval"@ || kind == "elicitation/request"@
}

pub open spec fn is_completed_method(kind: Seq<char>) -> bool {
    kind == "turn/completed"@ || kind == "turn/complete"@ || kind == "thread/completed"@
}

pub open spec fn is_running_method(kind: Seq<char>) -> bool {
    kind == "turn/started"@ || kind == "turn/progress"@ || kind == "turn/updated"@ || kind
        == "thread/status/changed"@
}

pub open spec fn is_done_status(st: Seq<char>) -> bool {
    st == "completed"@ || st == "complete"@ || st == "done"@ || st == "idle"@
}

pub open spec fn is_busy_status(st: Seq<char>) -> bool {
    st == "active"@ || st == "running"@ || st == "inprogress"@ || st == "in_progress"@
}

/// The value a notification gives for its token count.
pub open spec fn token_source(p: Option<JsonValue>) -> Option<JsonValue> {
    let v = either(get(p, "token_count"@), either(get(p, "tokenCount"@), either(get(p, "tokens"@), get(p, "tokenUsage"@))));
    match v {
        Some(_) => if get(v, "total"@) is Some {
            let total = get(v, "total"@);
            either(get(total, "totalTokens"@), get(total, "total_tokens"@))
        } else if is_object(v) {
            either(get(v, "totalTokens"@), get(v, "total_tokens"@))
        } else {
            v
        },
        None => None,
    }
}

/// `Some(id_text(v))` for a present value.
pub open spec fn id_text_opt(v: Option<JsonValue>) -> Option<Seq<char>> {
    match v {
        Some(x) => Some(id_text(x)),
        None => None,
    }
}

/// `r` is what the notification or request `root` says about a task.
pub open spec fn event_read(root: JsonValue, r: Result<NormalizedTaskEvent, ProtocolError>) -> bool {
    let p = event_params(root);
    let kind = event_kind(root);
    let st = event_status_type(root);
    let request_id = id_text_opt(get(Some(root), "id"@));
    match event_thread_id(root) {
        None => r matches Err(ProtocolError::Missing(m)) && m@ == "id"@,
        Some(id) => r matches Ok(e) && {
            &&& e.id@ == id
            &&& e.title@ == event_title(root)
            &&& opt_view(e.request_id) == request_id
            &&& opt_view(e.approval_request_id) == if asks_for_decision(kind) {
                request_id
            } else {
                None
            }
            &&& opt_view(e.resolved_request_id) == if reports_resolution(kind) {
                id_text_opt(either(get(p, "requestId"@), get(p, "request_id"@)))
            } else {
                None
            }
            &&& opt_view(e.turn_id) == json_str(either(get(p, "turnId"@), get(p, "turn_id"@)))
            &&& opt_view(e.item_id) == json_str(either(get(p, "itemId"@), get(p, "item_id"@)))
            &&& opt_view(e.waiting_reason) == json_str(
                either(get(p, "reason"@), either(get(p, "message"@), get(p, "command"@))),
            )
            &&& e.waiting_for_user == (json_bool(either(get(p, "waiting_for_user"@), get(p, "waitingForUser"@)))
                == Some(true) || is_approval_method(kind))
            &&& e.completed == (json_bool(get(p, "completed"@)) == Some(true) || is_completed_method(kind)
                || is_done_status(st))
            &&& e.running == (json_bool(get(p, "running"@)) == Some(true) || is_running_method(kind)
                || is_busy_status(st))
            &&& e.token_count == json_u64(token_source(p))
            &&& e.updated_at == match json_i64(
                either(get(p, "updated_at"@), either(get(p, "updatedAt"@), get(p, "timestamp"@))),
            ) {
                Some(x) => x,
                None => 0,
            }
        },
    }
}

/// A notification that a turn or a thread has completed completes the task: when its
/// `method` is `turn/completed`, `turn/complete` or `thread/completed`, the event read
/// from it is a completion.
pub proof fn law_completion_notice_completes(root: JsonValue, r: Result<NormalizedTaskEvent, ProtocolError>, m: Seq<char>)
    requires
        event_read(root, r),
        r is Ok,
        json_str(get(Some(root), "method"@)) == Some(m),
        m == "turn/completed"@ || m == "turn/complete"@ || m == "thread/completed"@,
    ensures
        r->Ok_0.completed,
{
    reveal_strlit("turn/completed");
    reveal_strlit("turn/complete");
    reveal_strlit("thread/completed");
    assert(ascii_lower(m) =~= m);
    assert(event_kind(root) == m);
}

fn lower_or_empty(s: Option<&String>) -> (r: Vec<char>)
    ensures
        r@ == match s {
            Some(x) => ascii_lower(x@),
            None => Seq::<char>::empty(),
        },
{
    match s {
        Some(x) => ascii_lower_str(x.as_str()),
        None => Vec::new(),
    }
}

fn id_text_in(v: Option<&JsonValue>) -> (r: Option<String>)
    ensures
        opt_view(r) == id_text_opt(deref_opt(v)),
{
    match v {
        Some(x) => Some(id_text_of(x)),
        None => None,
    }
}

fn token_source_in(p: Option<&JsonValue>) -> (r: Option<&JsonValue>)
    ensures
        deref_opt(r) == token_source(deref_opt(p)),
{
    let v = either_ref(
        get_member(p, "token_count"),
        either_ref(get_member(p, "tokenCount"), either_ref(get_member(p, "tokens"), get_member(p, "tokenUsage"))),
    );
    match v {
        Some(x) => {
            let total = get_member(v, "total");
            if total.is_some() {
                either_ref(get_member(total, "totalTokens"), get_member(total, "total_tokens"))
            } else {
                match x {
                    JsonValue::Object(_, _) => either_ref(get_member(v, "totalTokens"), get_member(v, "total_tokens")),
                    _ => v,
                }
            }
        },
        None => None,
    }
}

fn is_true(b: Option<bool>) -> (r: bool)
    ensures
        r == (b == Some(true)),
{
    match b {
        Some(x) => x,
        None => false,
    }
}

fn params_in(root: &JsonValue) -> (r: Option<&JsonValue>)
    ensures
        deref_opt(r) == event_params(*root),
{
    either_ref(get_member(Some(root), "params"), Some(root))
}

fn thread_id_in(root: &JsonValue) -> (r: Option<String>)
    ensures
        opt_view(r) == event_thread_id(*root),
{
    let p = params_in(root);
    let item = get_member(p, "item");
    match str_of(
        either_ref(
            get_member(p, "thread_id"),
            either_ref(
                get_member(p, "threadId"),
                either_ref(
                    get_member(p, "id"),
                    either_ref(get_member(p, "turnId"), either_ref(get_member(item, "threadId"), get_member(item, "thread_id"))),
                ),
            ),
        ),
    ) {
        Some(x) => Some(x.clone()),
        None => owned_str_of(get_member(get_member(p, "thread"), "id")),
    }
}

fn title_in(root: &JsonValue) -> (r: String)
    ensures
        r@ == event_title(*root),
{
    let p = params_in(root);
    match str_of(either_ref(get_member(p, "title"), either_ref(get_member(p, "name"), get_member(p, "threadName")))) {
        Some(x) => x.clone(),
        None => match str_of(get_member(get_member(p, "thread"), "name")) {
            Some(x) => x.clone(),
            None => "Codex 任务".to_owned(),
        },
    }
}

fn kind_in(root: &JsonValue) -> (r: Vec<char>)
    ensures
        r@ == event_kind(*root),
{
    let ro = Some(root);
    lower_or_empty(str_of(either_ref(get_member(ro, "method"), either_ref(get_member(ro, "event"), get_member(ro, "type")))))
}

fn status_type_in(root: &JsonValue) -> (r: Vec<char>)
    ensures
        r@ == event_status_type(*root),
{
    let status = get_member(params_in(root), "status");
    match status {
        Some(_) => lower_or_empty(str_of(either_ref(get_member(status, "type"), status))),
        None => Vec::new(),
    }
}

fn approval_method_in(kind: &Vec<char>) -> (r: bool)
    ensures
        r == is_approval_method(kind@),
{
    is_text(kind, "approval_required") || is_text(kind, "item/commandexecution/requestapproval") || is_text(
        kind,
        "item/tool/requestuserinput",
    ) || is_text(kind, "serverrequest/approval") || is_text(kind, "elicitation/request")
}

fn completed_in(root: &JsonValue, kind: &Vec<char>, st: &Vec<char>) -> (r: bool)
    ensures
        r == (json_bool(get(event_params(*root), "completed"@)) == Some(true) || is_completed_method(kind@)
            || is_done_status(st@)),
{
    is_true(bool_of(get_member(params_in(root), "completed"))) || is_text(kind, "turn/completed") || is_text(
        kind,
        "turn/complete",
    ) || is_text(kind, "thread/completed") || is_text(st, "completed") || is_text(st, "complete") || is_text(
        st,
        "done",
    ) || is_text(st, "idle")
}

fn running_in(root: &JsonValue, kind: &Vec<char>, st: &Vec<char>) -> (r: bool)
    ensures
        r == (json_bool(get(event_params(*root), "running"@)) == Some(true) || is_running_method(kind@)
            || is_busy_status(st@)),
{
    is_true(bool_of(get_member(params_in(root), "running"))) || is_text(kind, "turn/started") || is_text(
        kind,
        "turn/progress",
    ) || is_text(kind, "turn/updated") || is_text(kind, "thread/status/changed") || is_text(st, "active")
        || is_text(st, "running") || is_text(st, "inprogress") || is_text(st, "in_progress")
}

fn waiting_in(root: &JsonValue, kind: &Vec<char>) -> (r: bool)
    ensures
        r == (json_bool(either(get(event_params(*root), "waiting_for_user"@), get(event_params(*root), "waitingForUser"@)))
            == Some(true) || is_approval_method(kind@)),
{
    let p = params_in(root);
    is_true(bool_of(either_ref(get_member(p, "waiting_for_user"), get_member(p, "waitingForUser")))) || approval_method_in(
        kind,
    )
}

fn request_ids_in(root: &JsonValue, kind: &Vec<char>) -> (r: (Option<String>, Option<String>, Option<String>))
    ensures
        opt_view(r.0) == id_text_opt(get(Some(*root), "id"@)),
        opt_view(r.1) == if asks_for_decision(kind@) {
            id_text_opt(get(Some(*root), "id"@))
        } else {
            None
        },
        opt_view(r.2) == if reports_resolution(kind@) {
            id_text_opt(either(get(event_params(*root), "requestId"@), get(event_params(*root), "request_id"@)))
        } else {
            None
        },
{
    let ro = Some(root);
    let p = params_in(root);
    let request_id = id_text_in(get_member(ro, "id"));
    let asks = has_text(kind, "approval") || has_text(kind, "requestuserinput") || has_text(kind, "elicitation/request");
    let approval_request_id = if asks {
        id_text_in(get_member(ro, "id"))
    } else {
        None
    };
    let resolves = has_text(kind, "serverrequest/resolved") || has_text(kind, "request/resolved");
    let resolved_request_id = if resolves {
        id_text_in(either_ref(get_member(p, "requestId"), get_member(p, "request_id")))
    } else {
        None
    };
    (request_id, approval_request_id, resolved_request_id)
}

fn details_in(root: &JsonValue) -> (r: (Option<String>, Option<String>, Option<String>, Option<u64>, i64))
    ensures
        opt_view(r.0) == json_str(either(get(event_params(*root), "turnId"@), get(event_params(*root), "turn_id"@))),
        opt_view(r.1) == json_str(either(get(event_params(*root), "itemId"@), get(event_params(*root), "item_id"@))),
        opt_view(r.2) == json_str(
            either(
                get(event_params(*root), "reason"@),
                either(get(event_params(*root), "message"@), get(event_params(*root), "command"@)),
            ),
        ),
        r.3 == json_u64(token_source(event_params(*root))),
        r.4 == match json_i64(
            either(
                get(event_params(*root), "updated_at"@),
                either(get(event_params(*root), "updatedAt"@), get(event_params(*root), "timestamp"@)),
            ),
        ) {
            Some(x) => x,
            None => 0,
        },
{
    let p = params_in(root);
    let turn_id = owned_str_of(either_ref(get_member(p, "turnId"), get_member(p, "turn_id")));
    let item_id = owned_str_of(either_ref(get_member(p, "itemId"), get_member(p, "item_id")));
    let waiting_reason = owned_str_of(
        either_ref(get_member(p, "reason"), either_ref(get_member(p, "message"), get_member(p, "command"))),
    );
    let token_count = u64_of(token_source_in(p));
    let updated_at = match i64_of(
        either_ref(get_member(p, "updated_at"), either_ref(get_member(p, "updatedAt"), get_member(p, "timestamp"))),
    ) {
        Some(x) => x,
        None => 0,
    };
    (turn_id, item_id, waiting_reason, token_count, updated_at)
}

/// Reads a notification or server request that `serde_json` has parsed.
pub fn event_from_json(doc: &JsonValue) -> (r: Result<NormalizedTaskEvent, ProtocolError>)
    ensures
        event_read(payload(*doc), r),
{
    let root = payload_of(doc);
    let id = match thread_id_in(root) {
        Some(id) => id,
        None => return Err(ProtocolError::Missing("id")),
    };
    let title = title_in(root);
    let kind = kind_in(root);
    let st = status_type_in(root);
    let (request_id, approval_request_id, resolved_request_id) = request_ids_in(root, &kind);
    let (turn_id, item_id, waiting_reason, token_count, updated_at) = details_in(root);
    let waiting_for_user = waiting_in(root, &kind);
    let completed = completed_in(root, &kind, &st);
    let running = running_in(root, &kind, &st);
    Ok(
        NormalizedTaskEvent {
            id,
            turn_id,
            item_id,
            request_id,
            resolved_request_id,
            title,
            waiting_reason,
            approval_request_id,
            waiting_for_user,
            running,
            completed,
            token_count,
            updated_at,
        },
    )
}

/// Reads one line the app-server wrote: a notification or a server request.
pub fn parse_event_line(input: &str) -> (r: Result<NormalizedTaskEvent, ProtocolError>)
    ensures
        match parsed_json(input@) {
            None => r matches Err(ProtocolError::Json(_)),
            Some(doc) => event_read(payload(doc), r),
        },
{
    let doc = match parse_json(input) {
        Ok(d) => d,
        Err(e) => return Err(ProtocolError::Json(e)),
    };
    event_from_json(&doc)
}

} // verus!
