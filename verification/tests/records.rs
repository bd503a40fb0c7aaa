use hermes::store::{
    chronological, list_lines, log_path, missing_message, record_key, StoreError,
};
use hermes::transaction::{RequestData, ResponseData, Timestamp, Transaction, TransactionId};

fn id(n: u8) -> TransactionId {
    TransactionId { bytes: [n; 16] }
}

fn tx(n: u8, seconds: i64, nanos: u32, url: &str) -> Transaction {
    let request = RequestData {
        method: "GET".to_string(),
        url: url.to_string(),
        headers: vec![],
        body: vec![],
    };
    Transaction::begin(id(n), Timestamp { seconds, nanos }, request)
}

#[test]
fn a_new_transaction_has_no_response() {
    let a = Transaction::new(tx(0, 0, 0, "http://a/b").request);
    let b = Transaction::new(tx(0, 0, 0, "http://a/b").request);
    assert!(a.response.is_none());
    assert!(a.duration_ms.is_none());
    assert_eq!(a.request.url, "http://a/b");
    assert_eq!(a.id.bytes[6] >> 4, 4);
    assert_eq!(a.id.bytes[8] >> 6, 2);
    assert_ne!(a.id.bytes, b.id.bytes);
    assert!(a.timestamp.seconds > 1_600_000_000);
    assert!(a.timestamp.is_no_later(&b.timestamp));
}

#[test]
fn hosts_and_paths() {
    let cases = [
        ("https://example.com:8443/a/b?c", "example.com:8443", "/a/b?c"),
        ("http://example.com", "example.com", "/"),
        ("example.com/x", "example.com", "/x"),
        ("", "", "/"),
        ("https://http://x/y", "http:", "//x/y"),
        ("http://é/ü", "é", "/ü"),
    ];
    for (url, host, path) in cases {
        let t = tx(0, 0, 0, url);
        assert_eq!(t.host(), host);
        assert_eq!(t.path(), path);
    }
}

#[test]
fn identifiers_are_shown_and_read() {
    let text = "67e55044-10b1-426f-9247-bb680e5fe0c8";
    let parsed = TransactionId::parse(text).unwrap();
    assert_eq!(parsed.bytes[0], 0x67);
    assert_eq!(parsed.bytes[15], 0xc8);
    assert_eq!(parsed.to_text(), text);
    let simple = TransactionId::parse("67E5504410B1426F9247BB680E5FE0C8").unwrap();
    assert_eq!(simple.bytes, parsed.bytes);
    assert!(TransactionId::parse("67e55044").is_err());
    assert!(!TransactionId::parse("").err().unwrap().is_empty());
    assert_eq!(id(0xab).to_text(), "abababab-abab-abab-abab-abababababab");
    assert_eq!(TransactionId::parse(&id(7).to_text()).unwrap().bytes, [7; 16]);
    assert_eq!(record_key(&id(9)), vec![9; 16]);
}

#[test]
fn lists_are_chronological_and_stable() {
    let list = vec![
        tx(1, 5, 0, "a"),
        tx(2, 3, 9, "b"),
        tx(3, 5, 0, "c"),
        tx(4, 3, 8, "d"),
        tx(5, -1, 0, "e"),
    ];
    let sorted: Vec<u8> = chronological(list).iter().map(|t| t.id.bytes[0]).collect();
    assert_eq!(sorted, vec![5, 4, 2, 1, 3]);
    assert!(chronological(vec![]).is_empty());
}

#[test]
fn the_list_is_printed() {
    assert_eq!(
        list_lines(&[], ".hermes-sessions"),
        vec!["No transactions stored in '.hermes-sessions'.".to_string()]
    );
    let mut done = tx(0xab, 1, 0, "http://a/b");
    done.response = Some(ResponseData { status: 204, headers: vec![], body: vec![] });
    let open = tx(0xcd, 2, 0, "http://c/d");
    let lines = list_lines(&[done, open], "db");
    assert_eq!(
        lines[0],
        format!("{:<36}  {:<6}  {:<7}  {}", "ID", "STATUS", "METHOD", "URL")
    );
    assert_eq!(lines[1], "─".repeat(90));
    assert_eq!(lines[2], "abababab-abab-abab-abab-abababababab  204     GET      http://a/b");
    assert_eq!(lines[3], "cdcdcdcd-cdcd-cdcd-cdcd-cdcdcdcdcdcd  —       GET      http://c/d");
    assert_eq!(lines[4], "");
    assert_eq!(lines[5], "2 transaction(s) total.");
    assert_eq!(lines.len(), 6);
}

#[test]
fn store_texts() {
    assert_eq!(StoreError::Db("x".to_string()).message(), "database error: x");
    assert_eq!(StoreError::Bincode("x".to_string()).message(), "serialization error: x");
    assert_eq!(StoreError::NotFound("x".to_string()).message(), "transaction not found: x");
    assert_eq!(log_path(".hermes-sessions"), ".hermes-sessions.log");
    assert_eq!(log_path("a/b//"), "a/b.log");
    assert_eq!(log_path("/"), ".log");
    assert_eq!(missing_message("i", "d"), "Transaction i not found in d");
}
