//! Usage and status data for the side panel: the session metrics the harness
//! records in its session cache, the account balance DeepSeek reports, and
//! the API key the balance request is made with.
//!
//! JSON documents reach this module as `Json` values, whose numbers carry
//! both the unsigned integer they may be and the bits of the `f64` they read
//! as.

use vstd::prelude::*;
use crate::order::{descending_stable, is_permutation, order_descending};
use crate::text::{
    chars_of, decimal, find, find_in, lines, lines_of, opt_view, push_decimal, same_chars,
    same_text, skip_class_backward, skip_class_forward, string_of, strip_prefix_repeated,
    trim_both, trim_start_matches, CharClass,
};

verus! {

// ---------------------------------------------------------------------------
// JSON values

/// A JSON number: the `u64` it is, when it is one, and the bits of the `f64`
/// it reads as, when it reads as one.
#[derive(Clone, Copy, PartialEq, Eq, Debug, Structural)]
pub struct Number {
    pub as_u64: Option<u64>,
    pub f64_bits: Option<u64>,
}

/// A JSON value. An object keeps its members in the order they are listed.
pub enum Json {
    Null,
    Bool(bool),
    Number(Number),
    Str(String),
    Array(Vec<Json>),
    Object(Vec<(String, Json)>),
}

/// The value of the first member named `key` among `entries[i..]`.
pub open spec fn member_from(entries: Seq<(String, Json)>, key: Seq<char>, i: int) -> Option<Json>
    decreases entries.len() - i,
{
    if i < 0 || i >= entries.len() {
        None
    } else if entries[i].0@ == key {
        Some(entries[i].1)
    } else {
        member_from(entries, key, i + 1)
    }
}

/// The member `key` of an object, as `Value::get` finds it; nothing for
/// anything but an object.
pub open spec fn member(v: Json, key: Seq<char>) -> Option<Json> {
    match v {
        Json::Object(entries) => member_from(entries@, key, 0),
        _ => None,
    }
}

/// `member` through an optional value.
pub open spec fn member_of(v: Option<Json>, key: Seq<char>) -> Option<Json> {
    match v {
        Some(x) => member(x, key),
        None => None,
    }
}

pub open spec fn deref_json(r: Option<&Json>) -> Option<Json> {
    match r {
        Some(x) => Some(*x),
        None => None,
    }
}

/// The member named `key` of an object.
pub fn get<'a>(v: &'a Json, key: &str) -> (r: Option<&'a Json>)
    ensures
        deref_json(r) == member(*v, key@),
{
    match v {
        Json::Object(entries) => {
            let wanted = chars_of(key);
            assert(member(*v, key@) == member_from(entries@, key@, 0));
            let mut i: usize = 0;
            while i < entries.len()
                invariant
                    wanted@ == key@,
                    member(*v, key@) == member_from(entries@, key@, 0),
                    i <= entries@.len(),
                    member_from(entries@, key@, 0) == member_from(entries@, key@, i as int),
                decreases entries@.len() - i,
            {
                if same_chars(&chars_of(entries[i].0.as_str()), &wanted) {
                    let found = &entries[i];
                    assert(found.1 == entries@[i as int].1);
                    return Some(&found.1);
                }
                i = i + 1;
            }
            None
        },
        _ => None,
    }
}

/// The member named `key` of an optional value.
pub fn get_of<'a>(v: Option<&'a Json>, key: &str) -> (r: Option<&'a Json>)
    ensures
        deref_json(r) == member_of(deref_json(v), key@),
{
    match v {
        Some(x) => get(x, key),
        None => None,
    }
}

/// A row as the harness stores it, `{"val": …}`, read as its inner value; a
/// row without `val` is read as it is.
pub open spec fn row_spec(rows: Json, name: Seq<char>) -> Option<Json> {
    match member(rows, name) {
        Some(r) => match member(r, "val"@) {
            Some(inner) => Some(inner),
            None => Some(r),
        },
        None => None,
    }
}

/// A row is stored as `{"val": …}`; take the inner value when it is there.
pub fn row<'a>(rows: &'a Json, name: &str) -> (r: Option<&'a Json>)
    ensures
        deref_json(r) == row_spec(*rows, name@),
{
    match get(rows, name) {
        Some(r) => match get(r, "val") {
            Some(inner) => Some(inner),
            None => Some(r),
        },
        None => None,
    }
}

/// The unsigned integer a value is, as `Value::as_u64` reads it.
pub open spec fn u64_of(v: Option<Json>) -> Option<u64> {
    match v {
        Some(Json::Number(n)) => n.as_u64,
        _ => None,
    }
}

/// A numeric field of an optional value, 0 when it is missing or no `u64`.
pub open spec fn number_spec(value: Option<Json>, field: Seq<char>) -> u64 {
    match u64_of(member_of(value, field)) {
        Some(n) => n,
        None => 0,
    }
}

/// A numeric field of an optional value, 0 when it is missing or no `u64`:
/// a missing metric reads as zero rather than failing.
pub fn number(value: Option<&Json>, field: &str) -> (r: u64)
    ensures
        r == number_spec(deref_json(value), field@),
{
    match get_of(value, field) {
        Some(Json::Number(n)) => match n.as_u64 {
            Some(x) => x,
            None => 0,
        },
        _ => 0,
    }
}

/// The string a value is, as `Value::as_str` reads it.
pub open spec fn str_of(v: Option<Json>) -> Option<Seq<char>> {
    match v {
        Some(Json::Str(s)) => Some(s@),
        _ => None,
    }
}

fn string_value(v: Option<&Json>) -> (r: Option<String>)
    ensures
        opt_view(r) == str_of(deref_json(v)),
{
    match v {
        Some(Json::Str(s)) => Some(s.clone()),
        _ => None,
    }
}

/// The `f64` bits a value reads as, as `Value::as_f64` reads it.
pub open spec fn f64_bits_of(v: Option<Json>) -> Option<u64> {
    match v {
        Some(Json::Number(n)) => n.f64_bits,
        _ => None,
    }
}

// ---------------------------------------------------------------------------
// Session metrics

#[derive(Clone, Copy, PartialEq, Eq, Debug, Structural)]
pub struct Tokens {
    pub uncached_input: u64,
    pub output: u64,
    pub cache_read: u64,
    pub cache_write: u64,
}

#[derive(Clone, Copy, PartialEq, Eq, Debug, Structural)]
pub struct Context {
    pub surface: u64,
    pub window: u64,
    pub pressure: u64,
}

#[derive(Clone, Copy, PartialEq, Eq, Debug, Structural)]
pub struct Breakdown {
    pub system: u64,
    pub tools: u64,
    pub messages: u64,
}

#[derive(Clone, Copy, PartialEq, Eq, Debug, Structural)]
pub struct Stats {
    pub turns: u64,
    pub steps: u64,
    pub llm_ms: u64,
    pub tool_ms: u64,
    pub ttft_ms: u64,
    pub decode_ms: u64,
    pub decode_tokens: u64,
}

impl Default for Tokens {
    fn default() -> (r: Self)
        ensures
            r == (Tokens { uncached_input: 0, output: 0, cache_read: 0, cache_write: 0 }),
    {
        Tokens { uncached_input: 0, output: 0, cache_read: 0, cache_write: 0 }
    }
}

impl Default for Context {
    fn default() -> (r: Self)
        ensures
            r == (Context { surface: 0, window: 0, pressure: 0 }),
    {
        Context { surface: 0, window: 0, pressure: 0 }
    }
}

impl Default for Breakdown {
    fn default() -> (r: Self)
        ensures
            r == (Breakdown { system: 0, tools: 0, messages: 0 }),
    {
        Breakdown { system: 0, tools: 0, messages: 0 }
    }
}

impl Default for Stats {
    fn default() -> (r: Self)
        ensures
            r == (Stats {
                turns: 0,
                steps: 0,
                llm_ms: 0,
                tool_ms: 0,
                ttft_ms: 0,
                decode_ms: 0,
                decode_tokens: 0,
            }),
    {
        Stats { turns: 0, steps: 0, llm_ms: 0, tool_ms: 0, ttft_ms: 0, decode_ms: 0, decode_tokens: 0 }
    }
}

/// One cached session. `last_prompt_bits` holds the bits of the `f64`
/// timestamp of its last prompt.
pub struct Session {
    pub id: String,
    pub title: Option<String>,
    pub last_prompt_bits: Option<u64>,
    pub tokens: Tokens,
    pub context: Context,
    pub breakdown: Breakdown,
    pub stats: Stats,
}

pub struct SessionView {
    pub id: Seq<char>,
    pub title: Option<Seq<char>>,
    pub last_prompt_bits: Option<u64>,
    pub tokens: Tokens,
    pub context: Context,
    pub breakdown: Breakdown,
    pub stats: Stats,
}

impl View for Session {
    type V = SessionView;

    open spec fn view(&self) -> SessionView {
        SessionView {
            id: self.id@,
            title: opt_view(self.title),
            last_prompt_bits: self.last_prompt_bits,
            tokens: self.tokens,
            context: self.context,
            breakdown: self.breakdown,
            stats: self.stats,
        }
    }
}

impl Session {
    /// A copy of this session.
    pub fn duplicate(&self) -> (r: Session)
        ensures
            r@ == self@,
    {
        Session {
            id: self.id.clone(),
            title: match &self.title {
                Some(t) => Some(t.clone()),
                None => None,
            },
            last_prompt_bits: self.last_prompt_bits,
            tokens: self.tokens,
            context: self.context,
            breakdown: self.breakdown,
            stats: self.stats,
        }
    }
}

pub open spec fn tokens_of(totals: Option<Json>) -> Tokens {
    Tokens {
        uncached_input: number_spec(totals, "uncachedInputTokens"@),
        output: number_spec(totals, "outputTokens"@),
        cache_read: number_spec(totals, "cacheReadTokens"@),
        cache_write: number_spec(totals, "cacheWriteTokens"@),
    }
}

pub open spec fn context_of(pressure: Option<Json>) -> Context {
    Context {
        surface: number_spec(pressure, "surfaceTokens"@),
        window: number_spec(pressure, "contextWindow"@),
        pressure: number_spec(pressure, "pressureTokens"@),
    }
}

pub open spec fn breakdown_of(breakdown: Option<Json>) -> Breakdown {
    Breakdown {
        system: number_spec(breakdown, "systemTokens"@),
        tools: number_spec(breakdown, "toolsTokens"@),
        messages: number_spec(breakdown, "messageTokens"@),
    }
}

pub open spec fn stats_of(stats: Option<Json>) -> Stats {
    Stats {
        turns: number_spec(stats, "turns"@),
        steps: number_spec(stats, "steps"@),
        llm_ms: number_spec(stats, "llmMs"@),
        tool_ms: number_spec(stats, "toolMs"@),
        ttft_ms: number_spec(stats, "ttftMs"@),
        decode_ms: number_spec(stats, "decodeMs"@),
        decode_tokens: number_spec(stats, "decodeTokens"@),
    }
}

/// The session a table entry describes: nothing for an entry without
/// `rows`; otherwise the id without its `session-` prefix, the title, the
/// time of the last prompt, and every metric, missing ones as zero.
pub open spec fn session_of(id: Seq<char>, entry: Json) -> Option<SessionView> {
    match member(entry, "rows"@) {
        None => None,
        Some(rows) => Some(
            SessionView {
                id: strip_prefix_repeated(id, "session-"@),
                title: str_of(row_spec(rows, "title"@)),
                last_prompt_bits: f64_bits_of(
                    member_of(row_spec(rows, "sessionListMetadata"@), "lastPromptAt"@),
                ),
                tokens: tokens_of(member_of(row_spec(rows, "tokenUsage"@), "totals"@)),
                context: context_of(row_spec(rows, "contextPressure"@)),
                breakdown: breakdown_of(row_spec(rows, "contextBreakdown"@)),
                stats: stats_of(row_spec(rows, "sessionStats"@)),
            },
        ),
    }
}

/// Read one entry of the session table.
pub fn session_from(id: &str, entry: &Json) -> (r: Option<Session>)
    ensures
        match r {
            Some(s) => session_of(id@, *entry) == Some(s@),
            None => session_of(id@, *entry) is None,
        },
{
    let rows = match get(entry, "rows") {
        Some(rows) => rows,
        None => {
            return None;
        },
    };
    let usage = row(rows, "tokenUsage");
    let totals = get_of(usage, "totals");
    let pressure = row(rows, "contextPressure");
    let breakdown = row(rows, "contextBreakdown");
    let stats = row(rows, "sessionStats");
    let metadata = row(rows, "sessionListMetadata");
    let last_prompt_bits = match get_of(metadata, "lastPromptAt") {
        Some(Json::Number(n)) => n.f64_bits,
        _ => None,
    };
    Some(
        Session {
            id: trim_start_matches(id, "session-"),
            title: string_value(row(rows, "title")),
            last_prompt_bits,
            tokens: Tokens {
                uncached_input: number(totals, "uncachedInputTokens"),
                output: number(totals, "outputTokens"),
                cache_read: number(totals, "cacheReadTokens"),
                cache_write: number(totals, "cacheWriteTokens"),
            },
            context: Context {
                surface: number(pressure, "surfaceTokens"),
                window: number(pressure, "contextWindow"),
                pressure: number(pressure, "pressureTokens"),
            },
            breakdown: Breakdown {
                system: number(breakdown, "systemTokens"),
                tools: number(breakdown, "toolsTokens"),
                messages: number(breakdown, "messageTokens"),
            },
            stats: Stats {
                turns: number(stats, "turns"),
                steps: number(stats, "steps"),
                llm_ms: number(stats, "llmMs"),
                tool_ms: number(stats, "toolMs"),
                ttft_ms: number(stats, "ttftMs"),
                decode_ms: number(stats, "decodeMs"),
                decode_tokens: number(stats, "decodeTokens"),
            },
        },
    )
}

/// The sessions an ordered list of table entries describes, entries
/// without `rows` left out.
pub open spec fn collected(entries: Seq<(String, Json)>) -> Seq<SessionView>
    decreases entries.len(),
{
    if entries.len() == 0 {
        Seq::empty()
    } else {
        let rest = collected(entries.drop_last());
        match session_of(entries.last().0@, entries.last().1) {
            Some(s) => rest.push(s),
            None => rest,
        }
    }
}

/// A key that orders `f64` values, given by their bits, as `f64::total_cmp`
/// does.
pub open spec fn total_order_key(bits: u64) -> u64 {
    if bits >= 0x8000_0000_0000_0000 {
        (0xFFFF_FFFF_FFFF_FFFF - bits) as u64
    } else {
        (bits + 0x8000_0000_0000_0000) as u64
    }
}

/// How recent a session is: the order key of its last prompt time, a
/// session never prompted counting as prompted at time 0.
pub open spec fn recency(s: SessionView) -> u128 {
    match s.last_prompt_bits {
        Some(b) => total_order_key(b) as u128,
        None => total_order_key(0) as u128,
    }
}

fn recency_of(s: &Session) -> (k: u128)
    ensures
        k == recency(s@),
{
    let bits: u64 = match s.last_prompt_bits {
        Some(b) => b,
        None => 0,
    };
    let key: u64 = if bits >= 0x8000_0000_0000_0000 {
        0xFFFF_FFFF_FFFF_FFFF - bits
    } else {
        bits + 0x8000_0000_0000_0000
    };
    key as u128
}

/// `out` is `c` reordered by `p`, a stable most-recent-first order.
pub open spec fn arranged_by(out: Seq<SessionView>, c: Seq<SessionView>, p: Seq<usize>) -> bool {
    &&& is_permutation(p, c.len())
    &&& descending_stable(p, c.map_values(|s: SessionView| recency(s)))
    &&& out.len() == p.len()
    &&& forall|i: int| 0 <= i < out.len() ==> #[trigger] out[i] == c[p[i] as int]
}

/// `out` is `c` in stable most-recent-first order.
pub open spec fn recency_ordered(out: Seq<SessionView>, c: Seq<SessionView>) -> bool {
    exists|p: Seq<usize>| #[trigger] arranged_by(out, c, p)
}

pub open spec fn session_views(v: Seq<Session>) -> Seq<SessionView> {
    v.map_values(|s: Session| s@)
}

/// The session table of a session cache document: `tables.sessions`, when
/// that is an object.
pub open spec fn session_table(doc: Json) -> Option<Seq<(String, Json)>> {
    match member_of(member(doc, "tables"@), "sessions"@) {
        Some(Json::Object(entries)) => Some(entries@),
        _ => None,
    }
}

/// Every session recorded in a session cache document, most recently
/// prompted first; sessions prompted at the same time keep the table's order.
pub fn sessions_from(doc: &Json) -> (r: Result<Vec<Session>, String>)
    ensures
        session_table(*doc) is None ==> (r matches Err(m) && m@ == "no sessions recorded yet"@),
        session_table(*doc) is Some ==> (r matches Ok(v) && recency_ordered(
            session_views(v@),
            collected(session_table(*doc).unwrap()),
        )),
        r matches Ok(v) ==> forall|i: int, j: int|
            0 <= i < j < v@.len() ==> !f64_total_lt(
                prompt_bits(#[trigger] v@[i]@),
                prompt_bits(#[trigger] v@[j]@),
            ),
{
    let table = match get_of(get(doc, "tables"), "sessions") {
        Some(Json::Object(entries)) => entries,
        _ => {
            return Err(String::from_str("no sessions recorded yet"));
        },
    };
    assert(session_table(*doc) == Some(table@));
    let mut found: Vec<Session> = Vec::new();
    let mut keys: Vec<u128> = Vec::new();
    let mut i: usize = 0;
    while i < table.len()
        invariant
            session_table(*doc) == Some(table@),
            i <= table@.len(),
            session_views(found@) == collected(table@.take(i as int)),
            keys@ == session_views(found@).map_values(|s: SessionView| recency(s)),
        decreases table@.len() - i,
    {
        let ghost before = found@;
        let entry = &table[i];
        proof {
            assert(table@.take(i + 1).drop_last() =~= table@.take(i as int));
            assert(table@.take(i + 1).last() == table@[i as int]);
        }
        match session_from(entry.0.as_str(), &entry.1) {
            Some(s) => {
                let k = recency_of(&s);
                found.push(s);
                keys.push(k);
                proof {
                    assert(session_views(found@) =~= session_views(before).push(found@.last()@));
                    assert(keys@ =~= session_views(found@).map_values(|s: SessionView| recency(s)));
                }
            },
            None => {},
        }
        i = i + 1;
    }
    proof {
        assert(table@.take(table@.len() as int) =~= table@);
    }
    let ghost c = collected(table@);
    let p = order_descending(&keys);
    let mut out: Vec<Session> = Vec::new();
    let mut j: usize = 0;
    while j < p.len()
        invariant
            session_table(*doc) == Some(table@),
            c == collected(table@),
            j <= p@.len(),
            is_permutation(p@, keys@.len()),
            keys@.len() == found@.len(),
            session_views(found@) == c,
            out@.len() == j,
            forall|k: int| 0 <= k < j ==> #[trigger] out@[k]@ == c[p@[k] as int],
        decreases p@.len() - j,
    {
        let s = found[p[j]].duplicate();
        out.push(s);
        proof {
            assert(found@[p@[j as int] as int]@ == c[p@[j as int] as int]);
        }
        j = j + 1;
    }
    proof {
        assert(c.map_values(|s: SessionView| recency(s)) =~= keys@);
        assert(arranged_by(session_views(out@), c, p@));
        assert(recency_ordered(session_views(out@), collected(session_table(*doc).unwrap())));
        lemma_sessions_latest_first(session_views(out@), c);
        assert forall|i: int, j: int| 0 <= i < j < out@.len() implies !f64_total_lt(
            prompt_bits(#[trigger] out@[i]@),
            prompt_bits(#[trigger] out@[j]@),
        ) by {
            assert(session_views(out@)[i] == out@[i]@);
            assert(session_views(out@)[j] == out@[j]@);
        }
    }
    Ok(out)
}

// ---------------------------------------------------------------------------
// Account balance

/// The account balance DeepSeek reports.
pub struct Balance {
    pub currency: String,
    pub total: String,
    pub granted: String,
    pub topped_up: String,
    pub available: bool,
}

pub struct BalanceView {
    pub currency: Seq<char>,
    pub total: Seq<char>,
    pub granted: Seq<char>,
    pub topped_up: Seq<char>,
    pub available: bool,
}

impl View for Balance {
    type V = BalanceView;

    open spec fn view(&self) -> BalanceView {
        BalanceView {
            currency: self.currency@,
            total: self.total@,
            granted: self.granted@,
            topped_up: self.topped_up@,
            available: self.available,
        }
    }
}

impl Balance {
    /// A copy of this balance.
    pub fn duplicate(&self) -> (r: Balance)
        ensures
            r@ == self@,
    {
        Balance {
            currency: self.currency.clone(),
            total: self.total.clone(),
            granted: self.granted.clone(),
            topped_up: self.topped_up.clone(),
            available: self.available,
        }
    }
}

/// A text field of the balance entry, a dash when it is missing.
pub open spec fn balance_field(info: Json, name: Seq<char>) -> Seq<char> {
    match str_of(member(info, name)) {
        Some(t) => t,
        None => "\u{2014}"@,
    }
}

/// The first element of an array value.
pub open spec fn first_element(v: Option<Json>) -> Option<Json> {
    match v {
        Some(Json::Array(items)) => if items@.len() > 0 {
            Some(items@[0])
        } else {
            None
        },
        _ => None,
    }
}

/// The balance a `/user/balance` response reports: its first
/// `balance_infos` entry, each text field a dash when missing, and whether
/// the account is available (no, when that is missing).
pub open spec fn balance_of(body: Json) -> Option<BalanceView> {
    match first_element(member(body, "balance_infos"@)) {
        Some(info) => Some(
            BalanceView {
                currency: balance_field(info, "currency"@),
                total: balance_field(info, "total_balance"@),
                granted: balance_field(info, "granted_balance"@),
                topped_up: balance_field(info, "topped_up_balance"@),
                available: match member(body, "is_available"@) {
                    Some(Json::Bool(b)) => b,
                    _ => false,
                },
            },
        ),
        None => None,
    }
}

fn text_field(info: &Json, name: &str) -> (r: String)
    ensures
        r@ == balance_field(*info, name@),
{
    match string_value(get(info, name)) {
        Some(t) => t,
        None => String::from_str("\u{2014}"),
    }
}

/// Read the balance out of a `/user/balance` response.
pub fn balance_from(body: &Json) -> (r: Result<Balance, String>)
    ensures
        match balance_of(*body) {
            Some(b) => r matches Ok(x) && x@ == b,
            None => r matches Err(m) && m@ == "DeepSeek reported no balance"@,
        },
        r matches Ok(x) ==> (x.available <==> member(*body, "is_available"@) == Some(Json::Bool(true))),
{
    let info = match get(body, "balance_infos") {
        Some(Json::Array(items)) => {
            if items.len() > 0 {
                &items[0]
            } else {
                return Err(String::from_str("DeepSeek reported no balance"));
            }
        },
        _ => {
            return Err(String::from_str("DeepSeek reported no balance"));
        },
    };
    let available = match get(body, "is_available") {
        Some(Json::Bool(b)) => *b,
        _ => false,
    };
    Ok(
        Balance {
            currency: text_field(info, "currency"),
            total: text_field(info, "total_balance"),
            granted: text_field(info, "granted_balance"),
            topped_up: text_field(info, "topped_up_balance"),
            available,
        },
    )
}

/// The account counts as available exactly when the response's
/// `is_available` member is the boolean `true`: `false`, a missing member or
/// any other value reads as unavailable.
pub proof fn lemma_available_is_the_flag(body: Json)
    ensures
        balance_of(body) matches Some(b) ==> (b.available <==> member(body, "is_available"@) == Some(
            Json::Bool(true),
        )),
{
}

/// The message for a refused balance request, by HTTP status.
pub open spec fn http_status_text(code: u16) -> Seq<char> {
    if code == 401 {
        "the DeepSeek API key was rejected"@
    } else {
        "DeepSeek returned HTTP "@ + decimal(code as nat)
    }
}

/// The message for a balance request DeepSeek answered with an error status.
pub fn http_status_message(code: u16) -> (r: String)
    ensures
        r@ == http_status_text(code),
{
    if code == 401 {
        String::from_str("the DeepSeek API key was rejected")
    } else {
        let mut r = String::from_str("DeepSeek returned HTTP ");
        push_decimal(&mut r, code as u64);
        r
    }
}

/// The `Authorization` header value a request made with `key` carries.
pub fn bearer(key: &str) -> (r: String)
    ensures
        r@ == "Bearer "@ + key@,
{
    let mut r = String::from_str("Bearer ");
    r.append(key);
    r
}

// ---------------------------------------------------------------------------
// The API key

/// The key a line of the credentials file sets: on a line `name: value`
/// whose trimmed name is `DEEPSEEK_API_KEY`, the value trimmed and stripped
/// of quotes, when that leaves anything.
pub open spec fn line_key(line: Seq<char>) -> Option<Seq<char>> {
    match find(line, seq![':']) {
        None => None,
        Some(i) => {
            let name = line.take(i);
            let value = trim_both(trim_both(line.skip(i + 1), CharClass::WhiteSpace), CharClass::Quote);
            if trim_both(name, CharClass::WhiteSpace) == "DEEPSEEK_API_KEY"@ && value.len() > 0 {
                Some(value)
            } else {
                None
            }
        },
    }
}

/// The key the first line that sets one sets.
pub open spec fn first_key(lines: Seq<Seq<char>>) -> Option<Seq<char>>
    decreases lines.len(),
{
    if lines.len() == 0 {
        None
    } else {
        match line_key(lines[0]) {
            Some(k) => Some(k),
            None => first_key(lines.drop_first()),
        }
    }
}

/// The `DEEPSEEK_API_KEY` the harness's credentials file holds. The file is
/// two levels of trivial YAML, read line by line.
pub open spec fn credentials_key(text: Seq<char>) -> Option<Seq<char>> {
    first_key(lines_of(text))
}

fn key_of_line(line: &Vec<char>) -> (r: Option<String>)
    ensures
        opt_view(r) == line_key(line@),
{
    let colon = vec![':'];
    assert(colon@ =~= seq![':']);
    match find_in(line, &colon) {
        None => None,
        Some(i) => {
            let n = line.len();
            let name_start = skip_class_forward(line, 0, i, CharClass::WhiteSpace);
            let name_end = skip_class_backward(line, name_start, i, CharClass::WhiteSpace);
            let value_start = skip_class_forward(line, i + 1, n, CharClass::WhiteSpace);
            let value_end = skip_class_backward(line, value_start, n, CharClass::WhiteSpace);
            let key_start = skip_class_forward(line, value_start, value_end, CharClass::Quote);
            let key_end = skip_class_backward(line, key_start, value_end, CharClass::Quote);
            proof {
                assert(line@.subrange(0, i as int) =~= line@.take(i as int));
                assert(line@.subrange(i + 1, n as int) =~= line@.skip(i + 1));
            }
            let name = string_of(line, name_start, name_end);
            if same_text(name.as_str(), "DEEPSEEK_API_KEY") && key_end > key_start {
                Some(string_of(line, key_start, key_end))
            } else {
                None
            }
        },
    }
}

/// The `DEEPSEEK_API_KEY` a credentials file sets, if any.
pub fn key_from_credentials(text: &str) -> (r: Option<String>)
    ensures
        opt_view(r) == credentials_key(text@),
{
    let all = lines(text);
    let ghost ls = all@.map_values(|l: Vec<char>| l@);
    let mut i: usize = 0;
    assert(ls.skip(0) =~= ls);
    while i < all.len()
        invariant
            ls == all@.map_values(|l: Vec<char>| l@),
            ls == lines_of(text@),
            i <= all@.len(),
            first_key(ls) == first_key(ls.skip(i as int)),
        decreases all@.len() - i,
    {
        proof {
            assert(ls.skip(i as int)[0] == all@[i as int]@);
            assert(ls.skip(i as int).drop_first() =~= ls.skip(i + 1));
        }
        match key_of_line(&all[i]) {
            Some(k) => {
                return Some(k);
            },
            None => {},
        }
        i = i + 1;
    }
    assert(ls.skip(i as int) =~= Seq::<Seq<char>>::empty());
    None
}

/// What reading the harness's credentials file gave.
pub enum Credentials {
    /// There is no home directory to look in.
    NoHome,
    /// The file could not be read.
    Unreadable,
    /// The file's text.
    Text(String),
}

/// The API key the credentials file provides, or why there is none. (An
/// explicit, non-blank `DEEPSEEK_API_KEY` in the environment is used before
/// the file is consulted.)
pub fn api_key_from(file: Credentials) -> (r: Result<String, String>)
    ensures
        match file {
            Credentials::NoHome => r matches Err(m) && m@ == "could not locate the home directory"@,
            Credentials::Unreadable => r matches Err(m) && m@
                == "no DeepSeek API key found; sign in through the harness first"@,
            Credentials::Text(t) => match credentials_key(t@) {
                Some(k) => r matches Ok(x) && x@ == k,
                None => r matches Err(m) && m@ == "no DeepSeek API key found in the harness credentials"@,
            },
        },
{
    match file {
        Credentials::NoHome => Err(String::from_str("could not locate the home directory")),
        Credentials::Unreadable => Err(
            String::from_str("no DeepSeek API key found; sign in through the harness first"),
        ),
        Credentials::Text(t) => match key_from_credentials(t.as_str()) {
            Some(k) => Ok(k),
            None => Err(String::from_str("no DeepSeek API key found in the harness credentials")),
        },
    }
}

// ---------------------------------------------------------------------------
// The cached balance

/// How stale the cached balance may get before it is fetched again, in nanoseconds.
pub const BALANCE_TTL_NS: u64 = 300_000_000_000;

pub open spec fn result_view(r: Result<Balance, String>) -> Result<BalanceView, Seq<char>> {
    match r {
        Ok(b) => Ok(b@),
        Err(m) => Err(m@),
    }
}

fn duplicate_result(r: &Result<Balance, String>) -> (c: Result<Balance, String>)
    ensures
        result_view(c) == result_view(*r),
{
    match r {
        Ok(b) => Ok(b.duplicate()),
        Err(m) => Err(m.clone()),
    }
}

/// What a cache holding `stored` answers at `now_ns`: the stored result while
/// it is younger than the TTL, nothing otherwise.
pub open spec fn cache_answer(
    stored: Option<(u64, Result<BalanceView, Seq<char>>)>,
    now_ns: u64,
) -> Option<Result<BalanceView, Seq<char>>> {
    match stored {
        Some((fetched, value)) => if now_ns - fetched < BALANCE_TTL_NS {
            Some(value)
        } else {
            None
        },
        None => None,
    }
}

/// The last balance result fetched, and when (nanoseconds on the caller's clock).
pub struct BalanceCache {
    entry: Option<(u64, Result<Balance, String>)>,
}

impl BalanceCache {
    pub closed spec fn stored(&self) -> Option<(u64, Result<BalanceView, Seq<char>>)> {
        match self.entry {
            Some((t, v)) => Some((t, result_view(v))),
            None => None,
        }
    }

    /// An empty cache.
    pub fn new() -> (c: Self)
        ensures
            c.stored() is None,
    {
        BalanceCache { entry: None }
    }

    /// The cached result, while it is fresh at `now_ns`.
    pub fn lookup(&self, now_ns: u64) -> (r: Option<Result<Balance, String>>)
        ensures
            match r {
                Some(v) => cache_answer(self.stored(), now_ns) == Some(result_view(v)),
                None => cache_answer(self.stored(), now_ns) is None,
            },
    {
        match &self.entry {
            Some((fetched, value)) => {
                if now_ns < *fetched || now_ns - *fetched < BALANCE_TTL_NS {
                    Some(duplicate_result(value))
                } else {
                    None
                }
            },
            None => None,
        }
    }

    /// Remember `value`, fetched at `now_ns`.
    pub fn store(&mut self, now_ns: u64, value: &Result<Balance, String>)
        ensures
            final(self).stored() == Some((now_ns, result_view(*value))),
    {
        self.entry = Some((now_ns, duplicate_result(value)));
    }
}

/// A stored result is answered for the whole TTL after it was stored, and
/// not after.
pub proof fn lemma_cache_read_after_store(
    fetched_ns: u64,
    now_ns: u64,
    value: Result<BalanceView, Seq<char>>,
)
    requires
        fetched_ns <= now_ns,
    ensures
        now_ns < fetched_ns + BALANCE_TTL_NS ==> cache_answer(Some((fetched_ns, value)), now_ns)
            == Some(value),
        now_ns >= fetched_ns + BALANCE_TTL_NS ==> cache_answer(Some((fetched_ns, value)), now_ns)
            is None,
{
}

// ---------------------------------------------------------------------------
// The snapshot the panel reads

/// The label of the webview allowed to read usage data.
pub const PANEL_LABEL: &'static str = "panel";

/// Whether the webview labelled `label` may read usage data: only the
/// status panel may, not the harness page that shares its window.
pub fn caller_check(label: &str) -> (r: Result<(), String>)
    ensures
        label@ == PANEL_LABEL@ ==> r is Ok,
        label@ != PANEL_LABEL@ ==> (r matches Err(m) && m@
            == "usage data is only available to the status panel"@),
{
    if same_text(label, PANEL_LABEL) {
        Ok(())
    } else {
        Err(String::from_str("usage data is only available to the status panel"))
    }
}

/// Everything the panel shows.
pub struct Snapshot {
    pub sessions: Vec<Session>,
    pub balance: Option<Balance>,
    /// Why the balance is missing, when it is.
    pub balance_error: Option<String>,
    /// Where the sessions were read from.
    pub source: Option<String>,
}

/// The snapshot of what reading the sessions (with the file they came from)
/// and fetching the balance gave: no sessions and no source when the first
/// failed, the balance or the reason it is missing.
pub fn snapshot_of(
    sessions: Result<(Vec<Session>, String), String>,
    balance: Result<Balance, String>,
) -> (s: Snapshot)
    ensures
        match sessions {
            Ok((v, path)) => s.sessions == v && s.source == Some(path),
            Err(_) => s.sessions@.len() == 0 && s.source is None,
        },
        match balance {
            Ok(b) => s.balance == Some(b) && s.balance_error is None,
            Err(m) => s.balance is None && s.balance_error == Some(m),
        },
{
    let (list, source) = match sessions {
        Ok((v, path)) => (v, Some(path)),
        Err(_) => (Vec::new(), None),
    };
    let (bal, balance_error) = match balance {
        Ok(b) => (Some(b), None),
        Err(m) => (None, Some(m)),
    };
    Snapshot { sessions: list, balance: bal, balance_error, source }
}

/// The sessions come most recently prompted first, and every session of the
/// table is among them exactly once: none is lost or repeated.
pub proof fn lemma_most_recent_first(out: Seq<SessionView>, c: Seq<SessionView>)
    requires
        recency_ordered(out, c),
    ensures
        out.len() == c.len(),
        forall|i: int, j: int| 0 <= i < j < out.len() ==> recency(out[i]) >= recency(out[j]),
        forall|k: int| 0 <= k < c.len() ==> out.contains(#[trigger] c[k]),
{
    let p = choose|p: Seq<usize>| #[trigger] arranged_by(out, c, p);
    let keys = c.map_values(|s: SessionView| recency(s));
    assert forall|i: int, j: int| 0 <= i < j < out.len() implies recency(out[i]) >= recency(out[j]) by {
        assert(out[i] == c[p[i] as int] && out[j] == c[p[j] as int]);
        assert(keys[p[i] as int] == recency(c[p[i] as int]));
        assert(keys[p[j] as int] == recency(c[p[j] as int]));
    }
    crate::order::lemma_permutation_covers(p, c.len());
    assert forall|k: int| 0 <= k < c.len() implies out.contains(#[trigger] c[k]) by {
        assert(crate::order::lists(p, k));
        let i = choose|i: int| 0 <= i < p.len() && p[i] == k;
        assert(out[i] == c[k]);
    }
}

/// `a < b` for the `f64` values with bits `a` and `b` in IEEE 754's total
/// order, the one `f64::total_cmp` uses: every value with the sign bit set
/// comes before every value without it; among those without it, larger bits
/// are larger values; among those with it, larger bits are smaller values.
pub open spec fn f64_total_lt(a: u64, b: u64) -> bool {
    let a_neg = a >= 0x8000_0000_0000_0000;
    let b_neg = b >= 0x8000_0000_0000_0000;
    if a_neg != b_neg {
        a_neg
    } else if a_neg {
        a > b
    } else {
        a < b
    }
}

/// The bits of the time a session was last prompted at, `0.0` when never.
pub open spec fn prompt_bits(s: SessionView) -> u64 {
    match s.last_prompt_bits {
        Some(b) => b,
        None => 0,
    }
}

/// A session prompted later ranks strictly more recent, and the other way
/// round: recency orders sessions exactly as their last prompt times are
/// ordered as `f64` values.
pub proof fn lemma_recency_follows_prompt_time(s: SessionView, t: SessionView)
    ensures
        f64_total_lt(prompt_bits(s), prompt_bits(t)) <==> recency(s) < recency(t),
        prompt_bits(s) == prompt_bits(t) <==> recency(s) == recency(t),
{
}

/// In the session list, no session comes before one prompted later than it.
pub proof fn lemma_sessions_latest_first(out: Seq<SessionView>, c: Seq<SessionView>)
    requires
        recency_ordered(out, c),
    ensures
        forall|i: int, j: int|
            0 <= i < j < out.len() ==> !f64_total_lt(prompt_bits(out[i]), prompt_bits(out[j])),
{
    lemma_most_recent_first(out, c);
    assert forall|i: int, j: int| 0 <= i < j < out.len() implies !f64_total_lt(
        prompt_bits(out[i]),
        prompt_bits(out[j]),
    ) by {
        lemma_recency_follows_prompt_time(out[i], out[j]);
    }
}

} // verus!
