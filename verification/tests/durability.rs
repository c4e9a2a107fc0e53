use opencdd::codec::decode_data;
use opencdd::codec::encode_data;
use opencdd::decimal::parse_u64;
use opencdd::store::Store;
use opencdd::store::StoreError;
use opencdd::tickets::CategoryTicket;
use opencdd::tickets::DataTickets;

fn sample_record() -> DataTickets {
    DataTickets {
        msg_choose: Some((42, 77)),
        categories: vec![
            CategoryTicket {
                name: "Support".to_string(),
                prefix: "SUP".to_string(),
                id: 111,
                desc: Some("Aide générale".to_string()),
                tickets: vec!["SUP-alice".to_string(), "SUP-bob".to_string()],
                hidden: false,
            },
            CategoryTicket {
                name: "Interne".to_string(),
                prefix: "INT".to_string(),
                id: 222,
                desc: None,
                tickets: vec![],
                hidden: true,
            },
        ],
    }
}

fn assert_same(a: &DataTickets, b: &DataTickets) {
    assert_eq!(a.msg_choose, b.msg_choose);
    assert_eq!(a.categories.len(), b.categories.len());
    for (x, y) in a.categories.iter().zip(b.categories.iter()) {
        assert_eq!(x.name, y.name);
        assert_eq!(x.prefix, y.prefix);
        assert_eq!(x.id, y.id);
        assert_eq!(x.desc, y.desc);
        assert_eq!(x.tickets, y.tickets);
        assert_eq!(x.hidden, y.hidden);
    }
}

#[test]
fn snapshot_round_trip_restores_the_record() {
    let record = sample_record();
    let snapshot = encode_data(&record);
    let back = decode_data(&snapshot).expect("a written snapshot parses");
    assert_same(&record, &back);
}

#[test]
fn empty_record_round_trips() {
    let record = DataTickets { msg_choose: None, categories: vec![] };
    let snapshot = encode_data(&record);
    let back = decode_data(&snapshot).expect("parses");
    assert_same(&record, &back);
}

#[test]
fn corrupt_snapshots_are_refused() {
    assert!(decode_data("garbage").is_none());
    assert!(decode_data("").is_none());
    let record = sample_record();
    let mut snapshot = encode_data(&record);
    snapshot.pop();
    assert!(decode_data(&snapshot).is_none(), "a truncated snapshot does not parse");
    match Store::load(Some(&"NOT A SNAPSHOT".to_string())) {
        Err(StoreError::Corrupt) => {},
        _ => panic!("a corrupt snapshot is refused at load"),
    }
}

#[test]
fn missing_snapshot_defaults_and_first_flush_is_durable() {
    let mut store = Store::load(None).expect("no snapshot: default");
    assert!(store.try_acquire_read());
    assert_eq!(store.read().categories.len(), 0);
    assert_eq!(store.read().msg_choose, None);
    store.release_read();
    assert!(store.try_acquire_write());
    store.replace(sample_record());
    let snapshot = store.release_write();
    let reloaded = Store::load(Some(&snapshot)).expect("the flushed snapshot parses");
    let mut reloaded = reloaded;
    assert!(reloaded.try_acquire_read());
    assert_same(reloaded.read(), &sample_record());
}

#[test]
fn readers_and_writer_exclude_each_other() {
    let mut store = Store::load(None).expect("default store");
    // Three simulated readers hold the store together.
    assert!(store.try_acquire_read());
    assert!(store.try_acquire_read());
    assert!(store.try_acquire_read());
    // The writer must wait until every reader is done.
    assert!(!store.try_acquire_write());
    store.release_read();
    store.release_read();
    assert!(!store.try_acquire_write());
    store.release_read();
    assert!(store.try_acquire_write());
    // While the writer holds the store, nobody else gets in.
    assert!(!store.try_acquire_read());
    assert!(!store.try_acquire_write());
    store.replace(sample_record());
    let snapshot = store.release_write();
    // After the release every subsequent reader sees the full new value,
    // and a reload from the flushed snapshot agrees with it.
    assert!(store.try_acquire_read());
    assert_same(store.read(), &sample_record());
    let back = decode_data(&snapshot).expect("parses");
    assert_same(&back, &sample_record());
}

#[test]
fn parse_u64_accepts_digits_and_refuses_the_rest() {
    assert_eq!(parse_u64(&"123".to_string()), Some(123));
    assert_eq!(parse_u64(&"0".to_string()), Some(0));
    assert_eq!(parse_u64(&"18446744073709551615".to_string()), Some(u64::MAX));
    assert_eq!(parse_u64(&"18446744073709551616".to_string()), None);
    assert_eq!(parse_u64(&"99999999999999999999".to_string()), None);
    assert_eq!(parse_u64(&"".to_string()), None);
    assert_eq!(parse_u64(&"12a".to_string()), None);
    assert_eq!(parse_u64(&"-5".to_string()), None);
}
