use kvdb::db::api::{ConfigBuilder, Db, Driver};
use kvdb::db::mem::{new_driver, MemDb};
use kvdb::tester::{
    base_path, record_url, round_trip, test_value, Exchange, Method, ROUND_TRIP_STEPS,
    STATUS_NOT_FOUND, STATUS_OK, T_BASEURI, T_ENDPOINT, T_KEY,
};

/// A stand-in for the server: the REST surface over one database, with the
/// key taken from the end of the address.
fn serve(db: &mut MemDb, exchange: &Exchange) -> (u16, Option<String>) {
    let key = exchange.url.rsplit('/').next().unwrap().as_bytes().to_vec();
    match exchange.method {
        Method::Get => match db.get(&key).unwrap() {
            Some(value) => (200, Some(String::from_utf8(value).unwrap())),
            None => (404, None),
        },
        Method::Put => {
            let body = exchange.body.clone().unwrap();
            assert_eq!(db.put(&key, body.as_bytes()), Ok(true));
            (200, None)
        }
        Method::Delete => {
            if db.del(&key).unwrap() {
                (200, None)
            } else {
                (404, None)
            }
        }
    }
}

#[test]
fn constants_name_the_server() {
    assert_eq!(T_ENDPOINT, "http://127.0.0.1:8080");
    assert_eq!(T_BASEURI, "/api");
    assert_eq!(T_KEY, "1");
    assert_eq!(STATUS_OK, 200);
    assert_eq!(STATUS_NOT_FOUND, 404);
    assert_eq!(ROUND_TRIP_STEPS, 7);
}

#[test]
fn addresses_and_value_are_built_from_the_database_id() {
    assert_eq!(base_path("db1"), "http://127.0.0.1:8080/api/db1/");
    assert_eq!(record_url("db1"), "http://127.0.0.1:8080/api/db1/1");
    assert_eq!(test_value("db1"), "helloworld db1");
    assert_eq!(base_path("db2"), "http://127.0.0.1:8080/api/db2/");
    assert_eq!(record_url("db2"), "http://127.0.0.1:8080/api/db2/1");
    assert_eq!(test_value("db2"), "helloworld db2");
    assert_eq!(base_path(""), "http://127.0.0.1:8080/api//");
    assert_eq!(test_value(""), "helloworld ");
}

#[test]
fn round_trip_script_is_exact() {
    for db_id in ["db1", "db2"] {
        let script = round_trip(db_id);
        assert_eq!(script.len(), 7);

        let url = format!("http://127.0.0.1:8080/api/{}/1", db_id);
        let value = format!("helloworld {}", db_id);
        let expected: Vec<(Method, Option<String>, u16, Option<String>)> = vec![
            (Method::Get, None, 404, None),
            (Method::Delete, None, 404, None),
            (Method::Put, Some(value.clone()), 200, None),
            (Method::Get, None, 200, Some(value.clone())),
            (Method::Delete, None, 200, None),
            (Method::Get, None, 404, None),
            (Method::Delete, None, 404, None),
        ];
        for (exchange, (method, body, status, answer)) in script.iter().zip(expected) {
            assert_eq!(exchange.method, method);
            assert_eq!(exchange.url, url);
            assert_eq!(exchange.body, body);
            assert_eq!(exchange.expect_status, status);
            assert_eq!(exchange.expect_body, answer);
        }
    }
}

#[test]
fn only_the_read_back_reads_the_body() {
    let script = round_trip("db1");
    let reads: Vec<bool> = script.iter().map(|e| e.reads_body()).collect();
    assert_eq!(reads, vec![false, false, false, true, false, false, false]);
}

#[test]
fn exchange_accepts_the_expected_answer_only() {
    let script = round_trip("db1");

    let missing = &script[0];
    assert_eq!(missing.accepts(404, &None), true);
    assert_eq!(missing.accepts(404, &Some("anything".to_string())), true);
    assert_eq!(missing.accepts(200, &None), false);
    assert_eq!(missing.accepts(500, &None), false);

    let store = &script[2];
    assert_eq!(store.accepts(200, &None), true);
    assert_eq!(store.accepts(404, &None), false);

    let read_back = &script[3];
    assert_eq!(read_back.accepts(200, &Some("helloworld db1".to_string())), true);
    assert_eq!(read_back.accepts(200, &Some("helloworld db2".to_string())), false);
    assert_eq!(read_back.accepts(200, &Some("".to_string())), false);
    assert_eq!(read_back.accepts(200, &None), false);
    assert_eq!(read_back.accepts(404, &Some("helloworld db1".to_string())), false);
}

#[test]
fn round_trip_passes_against_the_reference_backend() {
    let driver = new_driver();
    for db_id in ["db1", "db2"] {
        let mut db = driver.start_db(ConfigBuilder::new().build()).unwrap();
        let mut statuses: Vec<u16> = Vec::new();
        for exchange in round_trip(db_id) {
            let (status, body) = serve(&mut db, &exchange);
            assert!(exchange.accepts(status, &body));
            statuses.push(status);
        }
        assert_eq!(statuses, vec![404, 404, 200, 200, 200, 404, 404]);
        assert_eq!(db.get(b"1"), Ok(None));
    }
}

#[test]
fn round_trip_fails_on_a_database_that_is_not_clean() {
    let mut db = MemDb::new();
    assert_eq!(db.put(b"1", b"left over"), Ok(true));
    let script = round_trip("db1");
    let (status, body) = serve(&mut db, &script[0]);
    assert_eq!(status, 200);
    assert_eq!(script[0].accepts(status, &body), false);
}
