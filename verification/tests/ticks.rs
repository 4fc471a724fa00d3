use std::time::Duration;
use trolly_gym::ticks::{clickhouse_unreachable_error, urlencoding_lite, DEFAULT_DATABASE, DEFAULT_TABLE};
use trolly_gym::{require_clickhouse_reachable, ClickHouseTicks, DEFAULT_CLICKHOUSE_URL};

fn http_get(url: &str) -> Result<String, String> {
    let resp = ureq::get(url)
        .timeout(Duration::from_secs(5))
        .call()
        .map_err(|e| e.to_string())?;
    resp.into_string().map_err(|e| e.to_string())
}

#[test]
fn require_clickhouse_bails_on_dead_url() {
    let client = ClickHouseTicks {
        url: "http://127.0.0.1:1".into(),
        database: DEFAULT_DATABASE.into(),
        table: DEFAULT_TABLE.into(),
    };
    let reply = http_get(&client.ping_url());
    let err = clickhouse_unreachable_error(
        &client.url,
        &client.ping(reply).expect_err("port 1 must refuse"),
    );
    assert!(err.contains("training bails: ClickHouse is not reachable"));
    assert!(err.contains("http://127.0.0.1:1"));
}

fn local() -> ClickHouseTicks {
    ClickHouseTicks::from_env(Some("http://127.0.0.1:8123//"))
}

#[test]
fn urls_drop_trailing_slashes_and_encode_queries() {
    let ch = local();
    assert_eq!(ch.ping_url(), "http://127.0.0.1:8123/ping");
    assert_eq!(
        ch.query_url("SELECT 1 FROM t WHERE x = 'a&b'"),
        "http://127.0.0.1:8123/?query=SELECT%201%20FROM%20t%20WHERE%20x%20%3D%20%27a%26b%27"
    );
    assert_eq!(urlencoding_lite("é-_.~"), "%C3%A9-_.~");
    let default = ClickHouseTicks::from_env(None);
    assert_eq!(default.url, DEFAULT_CLICKHOUSE_URL);
    assert_eq!(default.database, "trolly");
    assert_eq!(default.table, "ticks");
}

#[test]
fn ping_accepts_ok_bodies_and_reports_others() {
    let ch = local();
    assert_eq!(ch.ping(Ok("Ok.\n".into())), Ok(()));
    assert_eq!(ch.ping(Ok("xxOkxx".into())), Ok(()));
    assert_eq!(ch.ping(Ok("nope".into())), Err("unexpected ping body: nope".into()));
    assert_eq!(ch.ping(Err("refused".into())), Err("refused".into()));
}

#[test]
fn reachability_keeps_the_client_or_names_the_url() {
    let ch = local();
    let ok = require_clickhouse_reachable(ch.clone(), Ok(())).unwrap();
    assert_eq!(ok.url, ch.url);
    let err = require_clickhouse_reachable(ch, Err("down".into())).unwrap_err();
    assert_eq!(
        err,
        "training bails: ClickHouse is not reachable at http://127.0.0.1:8123// (down)"
    );
}

#[test]
fn statements_name_the_table_and_strip_quotes() {
    let ch = local();
    let schema = ch.ensure_schema();
    assert_eq!(schema.len(), 2);
    assert_eq!(schema[0], "CREATE DATABASE IF NOT EXISTS trolly");
    assert!(schema[1].starts_with("CREATE TABLE IF NOT EXISTS trolly.ticks ("));
    assert!(schema[1].ends_with("ORDER BY (symbol, ts_ms, session_id)"));
    assert_eq!(ch.insert_sql(), "INSERT INTO trolly.ticks FORMAT JSONEachRow");
    let q = ch.query_session_sql("it's");
    assert!(q.ends_with("WHERE session_id = 'its' ORDER BY ts_ms ASC FORMAT JSONEachRow"));
    let r = ch.query_recent_sql("BTC'USDT", 64);
    assert!(r.ends_with("WHERE symbol = 'BTCUSDT' ORDER BY ts_ms DESC LIMIT 64 FORMAT JSONEachRow"));
}
