use rooch_sequencer::hash::H256;
use rooch_sequencer::indexer::sql::{
    escape_sql_string, global_states_upsert_query, leaf_states_upsert_query, StoredGlobalState,
    StoredLeafState,
};
use rooch_sequencer::statedb::outpoint::OutPoint;
use rooch_sequencer::statedb::outpoint_inscriptions::{
    derive_utxo_seal, InscriptionRecord, ObjectID, OutpointInscriptions, OutpointInscriptionsMap,
    UTXO_SEAL_INSCRIPTION_PROTOCOL,
};
use rooch_sequencer::statedb::text::LineError;
use std::str::FromStr;

fn id(n: u8) -> ObjectID {
    let mut bytes = [n; 32];
    bytes[0] = 0xab;
    bytes[31] = 0x0f;
    H256(bytes)
}

fn id_text(id: &ObjectID) -> String {
    let hex: String = id.0.iter().map(|b| format!("{:02x}", b)).collect();
    format!("0x{}", hex)
}

fn outpoint(n: u8, vout: u32) -> OutPoint {
    let mut txid = [n; 32];
    txid[0] = 1;
    txid[31] = 0xfe;
    OutPoint { txid, vout }
}

fn bitcoin_outpoint(o: &OutPoint) -> bitcoin::OutPoint {
    bitcoin::OutPoint {
        txid: <bitcoin::Txid as bitcoin::hashes::Hash>::from_byte_array(o.txid),
        vout: o.vout,
    }
}

fn text(item: &OutpointInscriptions) -> String {
    String::from_utf8(item.to_line()).unwrap()
}

#[test]
fn outpoint_inscriptions_display() {
    let outpoint = outpoint(7, 42);
    let inscriptions = vec![id(1), id(2)];
    let outpoint_inscriptions = OutpointInscriptions { outpoint, inscriptions: inscriptions.clone() };

    let expected = format!(
        "{}-{},{}",
        bitcoin_outpoint(&outpoint),
        id_text(&inscriptions[0]),
        id_text(&inscriptions[1])
    );
    assert_eq!(text(&outpoint_inscriptions), expected);
    // The transaction id is written as the base layer writes it: last byte first.
    assert!(expected.starts_with("fe07070707"));
    assert!(expected.contains("01:42-0xab0101"));
}

#[test]
fn outpoint_inscriptions_from_str() {
    let exp = OutpointInscriptions { outpoint: outpoint(9, 0), inscriptions: vec![id(1), id(2), id(3)] };

    let act = OutpointInscriptions::from_line(text(&exp).as_bytes()).unwrap();
    assert_eq!(exp, act);
}

#[test]
fn lines_round_trip() {
    for count in 1..5u8 {
        for vout in [0, 1, 9, 10, u32::MAX] {
            let item = OutpointInscriptions {
                outpoint: outpoint(count, vout),
                inscriptions: (0..count).map(id).collect(),
            };
            let line = item.to_line();
            assert_eq!(OutpointInscriptions::from_line(&line), Ok(item));
        }
    }
    // Upper-case digits are read too.
    let item = OutpointInscriptions { outpoint: outpoint(1, 5), inscriptions: vec![id(0xcd)] };
    let upper = format!(
        "{}-0x{}",
        bitcoin_outpoint(&item.outpoint),
        id_text(&item.inscriptions[0])[2..].to_uppercase()
    );
    assert_eq!(OutpointInscriptions::from_line(upper.as_bytes()), Ok(item));
}

#[test]
fn lines_that_are_no_items() {
    let good = text(&OutpointInscriptions { outpoint: outpoint(1, 5), inscriptions: vec![id(1)] });
    let (outpoint_text, id_text) = good.split_once('-').unwrap();
    let parse = |line: &str| OutpointInscriptions::from_line(line.as_bytes());

    assert_eq!(parse(""), Err(LineError::Format));
    assert_eq!(parse("no dash here"), Err(LineError::Format));
    assert_eq!(parse(outpoint_text), Err(LineError::Format));
    assert_eq!(parse(&format!("x{}", good)), Err(LineError::OutPoint));
    assert_eq!(parse(&format!("-{}", id_text)), Err(LineError::OutPoint));
    assert_eq!(parse(&good.replacen(":5", ":05", 1)), Err(LineError::OutPoint));
    assert!(bitcoin::OutPoint::from_str(&outpoint_text.replacen(":5", ":05", 1)).is_err());
    // An item without inscriptions is written, but not read.
    let empty = OutpointInscriptions { outpoint: outpoint(1, 5), inscriptions: vec![] };
    assert_eq!(text(&empty), format!("{}-", outpoint_text));
    assert_eq!(parse(&text(&empty)), Err(LineError::ObjectID));
    assert_eq!(parse(&format!("{},", good)), Err(LineError::ObjectID));
    assert_eq!(parse(&format!("{},,{}", good, id_text)), Err(LineError::ObjectID));
    assert_eq!(parse(&good[..good.len() - 1]), Err(LineError::ObjectID));
    assert_eq!(parse(&good.replacen("-0x", "-0y", 1)), Err(LineError::ObjectID));
    assert_eq!(parse(&format!("{}g", &good[..good.len() - 1])), Err(LineError::ObjectID));
    assert_eq!(parse(&format!("{}-{}", good, id_text)), Err(LineError::ObjectID));
}

#[test]
fn index_skips_unbound_inscriptions() {
    let a = outpoint(1, 0);
    let b = outpoint(2, 3);
    let record = |n: u8, o: OutPoint| InscriptionRecord { inscription: id(n), satpoint_outpoint: o };
    let records = vec![
        record(1, b),
        record(2, OutPoint::unbound()),
        record(3, a),
        record(4, b),
        record(5, OutPoint::unbound()),
        record(6, OutPoint { txid: [0u8; 32], vout: 1 }),
    ];
    let (map, outpoints, inscriptions, unbound) = OutpointInscriptionsMap::index(records);
    assert_eq!((outpoints, inscriptions, unbound), (3, 4, 2));
    assert_eq!(map.stats(), (3, 4));
    assert!(map.is_sorted_and_merged());
    assert_eq!(map.search(&b), Some(vec![id(1), id(4)]));
    assert_eq!(map.search(&a), Some(vec![id(3)]));
    assert_eq!(map.search(&OutPoint { txid: [0u8; 32], vout: 1 }), Some(vec![id(6)]));
    assert_eq!(map.search(&OutPoint::unbound()), None);

    let (empty, outpoints, inscriptions, unbound) = OutpointInscriptionsMap::index(vec![]);
    assert_eq!((outpoints, inscriptions, unbound), (0, 0, 0));
    assert_eq!(empty.stats(), (0, 0));
}

#[test]
fn utxo_seal_holds_the_inscriptions() {
    let seals = derive_utxo_seal(Some(vec![id(1), id(2)]));
    assert_eq!(seals.data.len(), 1);
    assert_eq!(seals.data[0].key, UTXO_SEAL_INSCRIPTION_PROTOCOL);
    assert_eq!(
        seals.data[0].key,
        "0000000000000000000000000000000000000000000000000000000000000004::ord::Inscription"
    );
    assert_eq!(seals.data[0].value, vec![id(1), id(2)]);
    assert!(derive_utxo_seal(None).data.is_empty());
    assert_eq!(derive_utxo_seal(Some(vec![])).data[0].value, vec![]);
}

#[test]
fn sql_texts_are_escaped() {
    assert_eq!(escape_sql_string("it's".to_string()), "it''s");
    assert_eq!(escape_sql_string("''".to_string()), "''''");
    assert_eq!(escape_sql_string("plain \"text\" \\ é".to_string()), "plain \"text\" \\ é");
    assert_eq!(escape_sql_string(String::new()), "");
}

#[test]
fn global_states_statement_is_exact() {
    assert_eq!(global_states_upsert_query(&vec![]), None);
    let state = |n: i64| StoredGlobalState {
        object_id: format!("0x{}", n),
        owner: "o'brien".to_string(),
        flag: -1,
        value: "v".to_string(),
        key_type: "k".to_string(),
        size: n,
        created_at: i64::MIN,
        updated_at: i64::MAX,
    };
    let head = "\n                INSERT INTO global_states (object_id, owner, flag, value, key_type, size, created_at, updated_at) VALUES ";
    let tail = " ON CONFLICT (object_id) DO UPDATE SET owner = excluded.owner, flag = excluded.flag, value = excluded.value, size = excluded.size, updated_at = excluded.updated_at\n            ";
    let row = |n: i64| {
        format!(
            "('0x{}', 'o''brien', -1, 'v', 'k', {}, -9223372036854775808, 9223372036854775807)",
            n, n
        )
    };
    assert_eq!(
        global_states_upsert_query(&vec![state(0)]),
        Some(format!("{}{}{}", head, row(0), tail))
    );
    assert_eq!(
        global_states_upsert_query(&vec![state(10), state(205), state(-7)]),
        Some(format!("{}{},{},{}{}", head, row(10), row(205), row(-7), tail))
    );
}

#[test]
fn leaf_states_statement_is_exact() {
    assert_eq!(leaf_states_upsert_query(&vec![]), None);
    let state = StoredLeafState {
        id: "id".to_string(),
        object_id: "0x1".to_string(),
        key_hex: "0a".to_string(),
        value: "'".to_string(),
        value_type: "u64".to_string(),
        created_at: 0,
        updated_at: 1234567890,
    };
    let expected = "\n                INSERT INTO leaf_states (id, object_id, key_hex, value, value_type, created_at, updated_at) VALUES ('id', '0x1', '0a', '''', 'u64', 0, 1234567890),('id', '0x1', '0a', '''', 'u64', 0, 1234567890) ON CONFLICT (id) DO UPDATE SET value = excluded.value, value_type = excluded.value_type, updated_at = excluded.updated_at\n            ";
    assert_eq!(leaf_states_upsert_query(&vec![state.clone(), state]), Some(expected.to_string()));
}

#[test]
fn outpoint_inscriptions_map_index_and_dump() {
    let items: Vec<OutpointInscriptions> = (0..10u8)
        .map(|n| OutpointInscriptions {
            outpoint: outpoint(n.wrapping_mul(37), n as u32),
            inscriptions: vec![id(2 * n), id(2 * n + 1)],
        })
        .collect();
    let map = OutpointInscriptionsMap::new_with_unsorted(items.clone());
    let (mapped_outpoint_count, mapped_inscription_count) = map.stats();
    // What a dump writes, one item to a line, and what a load reads.
    let mut dump: Vec<u8> = Vec::new();
    for item in map.items() {
        dump.extend(item.to_line());
        dump.push(b'\n');
    }
    let loaded: Vec<OutpointInscriptions> = dump
        .split(|b| *b == b'\n')
        .filter(|line| !line.is_empty())
        .map(|line| OutpointInscriptions::from_line(line).expect("Unable to parse line"))
        .collect();
    let map_from_load = OutpointInscriptionsMap::new(loaded, true);
    assert!(map_from_load.is_sorted_and_merged());
    let (mapped_outpoint_count2, mapped_inscription_count2) = map_from_load.stats();
    assert_eq!(mapped_outpoint_count, mapped_outpoint_count2);
    assert_eq!(mapped_inscription_count, mapped_inscription_count2);
    assert_eq!(map.items(), map_from_load.items());
}

#[test]
fn line_of_an_item_is_exact() {
    let mut txid = [0u8; 32];
    for (i, byte) in txid.iter_mut().enumerate() {
        *byte = i as u8;
    }
    txid[31] = 0xab;
    let item = OutpointInscriptions {
        outpoint: OutPoint { txid, vout: 4294967295 },
        inscriptions: vec![H256([0x5a; 32]), H256([0x0f; 32])],
    };
    let expected = "ab1e1d1c1b1a191817161514131211100f0e0d0c0b0a09080706050403020100:4294967295\
                    -0x5a5a5a5a5a5a5a5a5a5a5a5a5a5a5a5a5a5a5a5a5a5a5a5a5a5a5a5a5a5a5a5a\
                    ,0x0f0f0f0f0f0f0f0f0f0f0f0f0f0f0f0f0f0f0f0f0f0f0f0f0f0f0f0f0f0f0f0f";
    assert_eq!(text(&item), expected);
    assert_eq!(OutpointInscriptions::from_line(expected.as_bytes()), Ok(item));

    let first = OutpointInscriptions {
        outpoint: OutPoint { txid: [0u8; 32], vout: 0 },
        inscriptions: vec![H256([0u8; 32])],
    };
    assert_eq!(text(&first), format!("{}:0-0x{}", "0".repeat(64), "0".repeat(64)));
    let tenth = OutpointInscriptions {
        outpoint: OutPoint { txid: [0u8; 32], vout: 10 },
        inscriptions: vec![],
    };
    assert_eq!(text(&tenth), format!("{}:10-", "0".repeat(64)));
}
