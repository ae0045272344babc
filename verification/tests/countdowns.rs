//! Countdowns and the store's address, and the texts that are cut and read.

use red::countdowns::{
    delete_command, get_query, handle_delete, handle_get, handle_list, handle_put, list_query,
    put_command, Countdown,
};
use red::http::Response;
use red::store::{readable, redis_url, Command, Query, StoreFault, Stored};
use red::text::{numeral, parse_u64, strip_prefix, strip_suffix, text_at_most, trim};

fn bare<B>(response: Response<B>) -> u16 {
    match response {
        Response::Bare(status) => status.code(),
        _ => 0,
    }
}

#[test]
fn commands_and_queries() {
    assert!(matches!(list_query(), Query::HashAll { key } if key == "hub:countdowns"));
    assert!(matches!(get_query("xmas"), Query::HashGet { key, field }
        if key == "hub:countdowns" && field == "xmas"));
    let countdown = Countdown { name: "xmas".to_string(), date: "2026-12-25".to_string() };
    assert!(matches!(put_command(countdown), Command::HashSet { key, field, value }
        if key == "hub:countdowns" && field == "xmas" && value == "2026-12-25"));
    assert!(matches!(delete_command("xmas"), Command::HashDelete { key, field }
        if key == "hub:countdowns" && field == "xmas"));
}

#[test]
fn answers() {
    let all = vec![("xmas".to_string(), "2026-12-25".to_string())];
    assert!(matches!(handle_list(Ok(all.clone())), Response::Json(listed) if listed == all));
    assert_eq!(bare(handle_list(Err(StoreFault))), 502);
    assert!(matches!(handle_get(Ok(Some("d".to_string()))), Response::Json(date) if date == "d"));
    assert_eq!(bare(handle_get(Ok(None))), 404);
    assert_eq!(bare(handle_get(Err(StoreFault))), 502);
    assert_eq!(bare(handle_put(Ok(()))), 200);
    assert_eq!(bare(handle_put(Err(StoreFault))), 502);
    assert_eq!(bare(handle_delete(Ok(()))), 200);
    assert_eq!(bare(handle_delete(Err(StoreFault))), 502);
}

#[test]
fn the_address_of_the_store() {
    assert_eq!(redis_url(None, None), "redis://127.0.0.1:6379");
    assert_eq!(
        redis_url(Some("db-redis-service".to_string()), Some("6380".to_string())),
        "redis://db-redis-service:6380"
    );
}

#[test]
fn what_reads() {
    let raw = vec![Stored::Value(1), Stored::Missing, Stored::Value(3), Stored::Unreadable];
    assert_eq!(readable(raw), vec![1, 3]);
}

#[test]
fn trimming_is_of_white_space() {
    for s in ["", " ", " a b ", "\u{85}x\u{2028}", "\u{200b}x", "\u{1680}é\u{feff}", "a\u{3000}"] {
        assert_eq!(trim(s), s.trim());
    }
    for code in 0..0x11_0000_u32 {
        if let Some(c) = char::from_u32(code) {
            assert_eq!(red::text::white_char(c), c.is_whitespace());
        }
    }
}

#[test]
fn numbers_as_texts() {
    for n in [0, 7, 10, 99, 12345, u64::MAX] {
        assert_eq!(numeral(n), n.to_string());
        assert_eq!(parse_u64(&n.to_string()), Some(n));
    }
    for s in ["", "+", "-1", "+5", "++5", "1 ", "00", "18446744073709551616", "1_0", "٣"] {
        assert_eq!(parse_u64(s), s.parse::<u64>().ok());
    }
}

#[test]
fn parts_of_texts() {
    assert_eq!(strip_prefix("mc-a", "mc-"), Some("a".to_string()));
    assert_eq!(strip_prefix("mc", "mc-"), None);
    assert_eq!(strip_suffix("3.log", ".log"), Some("3".to_string()));
    assert_eq!(strip_suffix("3.lo", ".log"), None);
    for (a, b) in [("", ""), ("a", "b"), ("b", "a"), ("ab", "a"), ("é", "z"), ("\u{ffff}", "\u{10000}")] {
        assert_eq!(text_at_most(a, b), a <= b);
    }
}
