//! ClickHouse tick store: request building and reply checks.
//!
//! The HTTP exchange itself is done by the caller; this module decides what
//! to send (URLs and SQL) and what a reply means.
use vstd::prelude::*;
use crate::text::{
    chars_of, contains, contains_chars, decimal, decimal_string, eq_lit, push_char, push_str,
    str_to_string, string_from_chars, trim, trim_chars, trim_end_char, trim_end_matches_char,
};
use vstd::utf8::encode_utf8;

verus! {

/// Default local HTTP endpoint (docker-compose in `clickhouse/`).
pub const DEFAULT_CLICKHOUSE_URL: &'static str = "http://127.0.0.1:8123";

pub const DEFAULT_DATABASE: &'static str = "trolly";

pub const DEFAULT_TABLE: &'static str = "ticks";

/// HTTP ClickHouse endpoint (JSONEachRow). Same schema for insert and select.
#[derive(Debug, Clone)]
pub struct ClickHouseTicks {
    pub url: String,
    pub database: String,
    pub table: String,
}

pub open spec fn is_unreserved(b: u8) -> bool {
    (65 <= b <= 90) || (97 <= b <= 122) || (48 <= b <= 57) || b == 45 || b == 95 || b == 46 || b
        == 126
}

pub open spec fn hex_upper_digit(n: nat) -> char {
    if n < 10 {
        ((n + 48) as u32) as char
    } else {
        ((n + 55) as u32) as char
    }
}

pub open spec fn percent_byte(b: u8) -> Seq<char> {
    if is_unreserved(b) {
        seq![b as char]
    } else {
        seq!['%', hex_upper_digit((b / 16) as nat), hex_upper_digit((b % 16) as nat)]
    }
}

/// Percent-encoding of the UTF-8 bytes: unreserved bytes stay, every other
/// byte becomes `%XX` (upper-case hex).
pub open spec fn percent_encode(bytes: Seq<u8>) -> Seq<char>
    decreases bytes.len(),
{
    if bytes.len() == 0 {
        Seq::<char>::empty()
    } else {
        percent_encode(bytes.drop_last()) + percent_byte(bytes.last())
    }
}

fn hex_upper(n: u8) -> (c: char)
    requires
        n < 16,
    ensures
        c == hex_upper_digit(n as nat),
{
    if n < 10 {
        (n + 48) as char
    } else {
        (n + 55) as char
    }
}

pub fn urlencoding_lite(raw: &str) -> (r: String)
    ensures
        r@ == percent_encode(encode_utf8(raw@)),
{
    let bytes = raw.as_bytes();
    let mut out = String::new();
    for i in 0..bytes.len()
        invariant
            bytes@ == encode_utf8(raw@),
            out@ == percent_encode(bytes@.take(i as int)),
    {
        let b = bytes[i];
        if (65 <= b && b <= 90) || (97 <= b && b <= 122) || (48 <= b && b <= 57) || b == 45 || b
            == 95 || b == 46 || b == 126 {
            push_char(&mut out, b as char);
        } else {
            push_char(&mut out, '%');
            push_char(&mut out, hex_upper(b / 16));
            push_char(&mut out, hex_upper(b % 16));
        }
        assert(bytes@.take(i + 1).drop_last() =~= bytes@.take(i as int));
        assert(out@ =~= percent_encode(bytes@.take(i + 1)));
    }
    assert(bytes@.take(bytes@.len() as int) =~= bytes@);
    out
}

pub open spec fn remove_char(s: Seq<char>, c: char) -> Seq<char> {
    s.filter(|x: char| x != c)
}

fn remove_quotes(s: &str) -> (r: String)
    ensures
        r@ == remove_char(s@, '\''),
{
    let cs = chars_of(s);
    let mut out = String::new();
    for i in 0..cs.len()
        invariant
            cs@ == s@,
            out@ == remove_char(s@.take(i as int), '\''),
    {
        proof {
            reveal_with_fuel(Seq::<_>::filter, 1);
            assert(s@.take(i + 1).drop_last() =~= s@.take(i as int));
        }
        if cs[i] != '\'' {
            push_char(&mut out, cs[i]);
        }
    }
    assert(s@.take(s@.len() as int) =~= s@);
    out
}

/// `url` without trailing `/`, then `suffix`.
pub open spec fn endpoint(url: Seq<char>, suffix: Seq<char>) -> Seq<char> {
    trim_end_char(url, '/') + suffix
}

/// The columns selected by the tick queries, in table order.
pub open spec fn tick_columns() -> Seq<char> {
    "ts_ms, venue, symbol, event_kind, side, price, size, bid, ask, bid_qty, ask_qty, mid, spread, update_id, source, session_id"@
}

pub open spec fn create_table_text(database: Seq<char>, table: Seq<char>) -> Seq<char> {
    "CREATE TABLE IF NOT EXISTS "@ + database + "."@ + table
        + " (\n                ts_ms Int64,\n                venue LowCardinality(String),\n                symbol LowCardinality(String),\n                event_kind LowCardinality(String),\n                side LowCardinality(String),\n                price Float64,\n                size Float64,\n                bid Float64,\n                ask Float64,\n                bid_qty Float64,\n                ask_qty Float64,\n                mid Float64,\n                spread Float64,\n                update_id UInt64,\n                source LowCardinality(String),\n                session_id String\n            ) ENGINE = MergeTree\n            ORDER BY (symbol, ts_ms, session_id)"@
}

/// Error text when the weekday trainer cannot talk to ClickHouse.
pub open spec fn unreachable_text(url: Seq<char>, err: Seq<char>) -> Seq<char> {
    "training bails: ClickHouse is not reachable at "@ + url + " ("@ + err + ")"@
}

pub fn clickhouse_unreachable_error(url: &str, err: &str) -> (r: String)
    ensures
        r@ == unreachable_text(url@, err@),
{
    let mut s = str_to_string("training bails: ClickHouse is not reachable at ");
    push_str(&mut s, url);
    push_str(&mut s, " (");
    push_str(&mut s, err);
    push_str(&mut s, ")");
    s
}

/// A ping reply is good when it reads `Ok.` once trimmed or contains `Ok`.
pub open spec fn ping_ok(body: Seq<char>) -> bool {
    trim(body) == "Ok."@ || contains(body, "Ok"@)
}

impl ClickHouseTicks {
    /// The endpoint at `url` (the `TROLLY_CLICKHOUSE_URL` value, or the
    /// default when unset) with the default database and table.
    pub fn from_env(url: Option<&str>) -> (r: Self)
        ensures
            r.url@ == match url {
                Some(u) => u@,
                None => DEFAULT_CLICKHOUSE_URL@,
            },
            r.database@ == DEFAULT_DATABASE@,
            r.table@ == DEFAULT_TABLE@,
    {
        let url = match url {
            Some(u) => str_to_string(u),
            None => str_to_string(DEFAULT_CLICKHOUSE_URL),
        };
        ClickHouseTicks {
            url,
            database: str_to_string(DEFAULT_DATABASE),
            table: str_to_string(DEFAULT_TABLE),
        }
    }

    fn with_suffix(&self, suffix: &str) -> (r: String)
        ensures
            r@ == endpoint(self.url@, suffix@),
    {
        let cs = chars_of(self.url.as_str());
        let base = trim_end_matches_char(cs.as_slice(), '/');
        let mut s = string_from_chars(base.as_slice());
        push_str(&mut s, suffix);
        s
    }

    /// `GET` target of the health check.
    pub fn ping_url(&self) -> (r: String)
        ensures
            r@ == endpoint(self.url@, "/ping"@),
    {
        self.with_suffix("/ping")
    }

    /// Outcome of the health check from the `GET` reply: the transport error
    /// as is, `Ok` for a good body, else the unexpected body.
    pub fn ping(&self, reply: Result<String, String>) -> (r: Result<(), String>)
        ensures
            match reply {
                Err(e) => r matches Err(x) && x@ == e@,
                Ok(body) => if ping_ok(body@) {
                    r is Ok
                } else {
                    r matches Err(x) && x@ == "unexpected ping body: "@ + body@
                },
            },
    {
        let body = match reply {
            Ok(b) => b,
            Err(e) => {
                return Err(e);
            },
        };
        let cs = chars_of(body.as_str());
        let t = trim_chars(cs.as_slice());
        let ok = chars_of("Ok");
        if eq_lit(t.as_slice(), "Ok.") || contains_chars(cs.as_slice(), ok.as_slice()) {
            Ok(())
        } else {
            let mut m = str_to_string("unexpected ping body: ");
            push_str(&mut m, body.as_str());
            Err(m)
        }
    }

    /// `POST` target that runs `sql`.
    pub fn query_url(&self, sql: &str) -> (r: String)
        ensures
            r@ == endpoint(self.url@, "/?query="@ + percent_encode(encode_utf8(sql@))),
    {
        let mut s = self.with_suffix("/?query=");
        let e = urlencoding_lite(sql);
        push_str(&mut s, e.as_str());
        s
    }

    /// Statements that create the database and the tick table if missing.
    pub fn ensure_schema(&self) -> (r: Vec<String>)
        ensures
            r@.len() == 2,
            r@[0]@ == "CREATE DATABASE IF NOT EXISTS "@ + self.database@,
            r@[1]@ == create_table_text(self.database@, self.table@),
    {
        let mut a = str_to_string("CREATE DATABASE IF NOT EXISTS ");
        push_str(&mut a, self.database.as_str());
        let mut b = str_to_string("CREATE TABLE IF NOT EXISTS ");
        push_str(&mut b, self.database.as_str());
        push_str(&mut b, ".");
        push_str(&mut b, self.table.as_str());
        push_str(
            &mut b,
            " (\n                ts_ms Int64,\n                venue LowCardinality(String),\n                symbol LowCardinality(String),\n                event_kind LowCardinality(String),\n                side LowCardinality(String),\n                price Float64,\n                size Float64,\n                bid Float64,\n                ask Float64,\n                bid_qty Float64,\n                ask_qty Float64,\n                mid Float64,\n                spread Float64,\n                update_id UInt64,\n                source LowCardinality(String),\n                session_id String\n            ) ENGINE = MergeTree\n            ORDER BY (symbol, ts_ms, session_id)",
        );
        let mut v: Vec<String> = Vec::new();
        v.push(a);
        v.push(b);
        v
    }

    /// `INSERT … FORMAT JSONEachRow` for the tick table.
    pub fn insert_sql(&self) -> (r: String)
        ensures
            r@ == "INSERT INTO "@ + self.database@ + "."@ + self.table@ + " FORMAT JSONEachRow"@,
    {
        let mut s = str_to_string("INSERT INTO ");
        push_str(&mut s, self.database.as_str());
        push_str(&mut s, ".");
        push_str(&mut s, self.table.as_str());
        push_str(&mut s, " FORMAT JSONEachRow");
        s
    }

    /// Ticks of one session, oldest first; quotes are dropped from the id.
    pub fn query_session_sql(&self, session_id: &str) -> (r: String)
        ensures
            r@ == "SELECT "@ + tick_columns() + " FROM "@ + self.database@ + "."@ + self.table@
                + " WHERE session_id = '"@ + remove_char(session_id@, '\'')
                + "' ORDER BY ts_ms ASC FORMAT JSONEachRow"@,
    {
        let mut s = str_to_string("SELECT ");
        push_str(
            &mut s,
            "ts_ms, venue, symbol, event_kind, side, price, size, bid, ask, bid_qty, ask_qty, mid, spread, update_id, source, session_id",
        );
        push_str(&mut s, " FROM ");
        push_str(&mut s, self.database.as_str());
        push_str(&mut s, ".");
        push_str(&mut s, self.table.as_str());
        push_str(&mut s, " WHERE session_id = '");
        let id = remove_quotes(session_id);
        push_str(&mut s, id.as_str());
        push_str(&mut s, "' ORDER BY ts_ms ASC FORMAT JSONEachRow");
        s
    }

    /// The newest `limit` ticks of a symbol, newest first (the caller
    /// reverses them); quotes are dropped from the symbol.
    pub fn query_recent_sql(&self, symbol: &str, limit: usize) -> (r: String)
        ensures
            r@ == "SELECT "@ + tick_columns() + " FROM "@ + self.database@ + "."@ + self.table@
                + " WHERE symbol = '"@ + remove_char(symbol@, '\'') + "' ORDER BY ts_ms DESC LIMIT "@
                + decimal(limit as nat) + " FORMAT JSONEachRow"@,
    {
        let mut s = str_to_string("SELECT ");
        push_str(
            &mut s,
            "ts_ms, venue, symbol, event_kind, side, price, size, bid, ask, bid_qty, ask_qty, mid, spread, update_id, source, session_id",
        );
        push_str(&mut s, " FROM ");
        push_str(&mut s, self.database.as_str());
        push_str(&mut s, ".");
        push_str(&mut s, self.table.as_str());
        push_str(&mut s, " WHERE symbol = '");
        let id = remove_quotes(symbol);
        push_str(&mut s, id.as_str());
        push_str(&mut s, "' ORDER BY ts_ms DESC LIMIT ");
        let d = decimal_string(limit as u64);
        push_str(&mut s, d.as_str());
        push_str(&mut s, " FORMAT JSONEachRow");
        s
    }
}

/// Outcome of the reachability check of `client`: the client, or the
/// bail-out error naming its URL.
pub fn require_clickhouse_reachable(client: ClickHouseTicks, ping: Result<(), String>) -> (r: Result<
    ClickHouseTicks,
    String,
>)
    ensures
        match ping {
            Ok(()) => r == Ok::<ClickHouseTicks, String>(client),
            Err(e) => r matches Err(x) && x@ == unreachable_text(client.url@, e@),
        },
{
    match ping {
        Ok(()) => Ok(client),
        Err(e) => Err(clickhouse_unreachable_error(client.url.as_str(), e.as_str())),
    }
}

/// Characters that a query URL carries as they are.
pub open spec fn url_safe_char(c: char) -> bool {
    c == '%' || ('A' <= c && c <= 'Z') || ('a' <= c && c <= 'z') || ('0' <= c && c <= '9')
        || c == '-' || c == '_' || c == '.' || c == '~'
}

/// Percent-encoded text holds only unreserved characters and `%` escapes,
/// so an encoded statement never ends or splits the query string.
pub proof fn lemma_percent_encode_safe(bytes: Seq<u8>)
    ensures
        forall|i: int| 0 <= i < percent_encode(bytes).len() ==> url_safe_char(
            #[trigger] percent_encode(bytes)[i],
        ),
    decreases bytes.len(),
{
    if bytes.len() > 0 {
        lemma_percent_encode_safe(bytes.drop_last());
        let head = percent_encode(bytes.drop_last());
        let tail = percent_byte(bytes.last());
        assert forall|i: int| 0 <= i < tail.len() implies url_safe_char(#[trigger] tail[i]) by {
            let b = bytes.last();
            if !is_unreserved(b) && i > 0 {
                let n: nat = if i == 1 {
                    (b / 16) as nat
                } else {
                    (b % 16) as nat
                };
                assert(n < 16);
                assert(tail[i] == hex_upper_digit(n));
            }
        }
        assert forall|i: int| 0 <= i < percent_encode(bytes).len() implies url_safe_char(
            #[trigger] percent_encode(bytes)[i],
        ) by {
            if i < head.len() {
                assert(percent_encode(bytes)[i] == head[i]);
            } else {
                assert(percent_encode(bytes)[i] == tail[i - head.len()]);
            }
        }
    }
}

/// A value with its quotes removed holds no quote, so it cannot end the
/// quoted literal it is placed in.
pub proof fn lemma_remove_char_gone(s: Seq<char>, c: char)
    ensures
        !remove_char(s, c).contains(c),
{
    let pred = |x: char| x != c;
    assert forall|i: int| 0 <= i < s.filter(pred).len() implies #[trigger] s.filter(pred)[i] != c by {
        s.lemma_filter_pred(pred, i);
    }
}

/// Ordered rows replayed as a training tape, with a read cursor.
#[derive(Debug, Clone)]
pub struct TickTape<T> {
    pub rows: Vec<T>,
    idx: usize,
}

impl<T> TickTape<T> {
    /// Rows already handed out.
    pub closed spec fn consumed(&self) -> nat {
        self.idx as nat
    }

    /// The rows of the tape.
    pub closed spec fn tape(&self) -> Seq<T> {
        self.rows@
    }

    pub closed spec fn well_formed(&self) -> bool {
        self.idx <= self.rows@.len()
    }

    pub fn new(rows: Vec<T>) -> (r: Self)
        ensures
            r.well_formed(),
            r.tape() == rows@,
            r.consumed() == 0,
    {
        TickTape { rows, idx: 0 }
    }

    pub fn len(&self) -> (r: usize)
        ensures
            r == self.tape().len(),
    {
        self.rows.len()
    }

    pub fn is_empty(&self) -> (r: bool)
        ensures
            r == (self.tape().len() == 0),
    {
        self.rows.len() == 0
    }

    /// Rewinds to the first row.
    pub fn reset(&mut self)
        ensures
            final(self).well_formed(),
            final(self).tape() == old(self).tape(),
            final(self).consumed() == 0,
    {
        self.idx = 0;
    }

    /// Rows not handed out yet.
    pub fn remaining(&self) -> (r: usize)
        requires
            self.well_formed(),
        ensures
            r == self.tape().len() - self.consumed(),
    {
        self.rows.len() - self.idx
    }
}

impl<T: Clone> TickTape<T> {
    /// The next row (a clone), or `None` at the end of the tape.
    pub fn next(&mut self) -> (r: Option<T>)
        requires
            old(self).well_formed(),
        ensures
            final(self).well_formed(),
            final(self).tape() == old(self).tape(),
            old(self).consumed() < old(self).tape().len() ==> (r matches Some(x) && cloned(
                old(self).tape()[old(self).consumed() as int],
                x,
            ) && final(self).consumed() == old(self).consumed() + 1),
            old(self).consumed() >= old(self).tape().len() ==> (r is None && final(self).consumed()
                == old(self).consumed()),
    {
        if self.idx < self.rows.len() {
            let row = self.rows[self.idx].clone();
            self.idx = self.idx + 1;
            Some(row)
        } else {
            None
        }
    }
}

/// A switch read from the environment is on when it is `1` or `true`
/// (ASCII case ignored).
pub open spec fn switch_on(v: Option<&str>) -> bool {
    match v {
        Some(s) => s@ == "1"@ || crate::text::eq_ignore_case(s@, "true"@),
        None => false,
    }
}

/// Stream ingest runs when `TROLLY_INGEST_TICKS` is on or
/// `TROLLY_CLICKHOUSE_URL` is set.
pub fn ingest_enabled(ingest_ticks: Option<&str>, clickhouse_url_set: bool) -> (r: bool)
    ensures
        r == (switch_on(ingest_ticks) || clickhouse_url_set),
{
    let on = match ingest_ticks {
        Some(v) => {
            let cs = chars_of(v);
            let t = chars_of("true");
            eq_lit(cs.as_slice(), "1") || crate::text::eq_ignore_ascii_case(cs.as_slice(), t.as_slice())
        },
        None => false,
    };
    on || clickhouse_url_set
}

} // verus!
