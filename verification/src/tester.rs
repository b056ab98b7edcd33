//! The round trip that an integration tester drives against a running
//! server, one database at a time: which requests to send, in which order,
//! and which answers the server owes. Sending the requests is the caller's
//! part; every decision is made here.

use vstd::prelude::*;

verus! {

/// Where the server listens.
pub const T_ENDPOINT: &'static str = "http://127.0.0.1:8080";

/// The root of the server's REST interface.
pub const T_BASEURI: &'static str = "/api";

/// The key of the record that the round trip writes and removes.
pub const T_KEY: &'static str = "1";

/// The status of a request that was carried out.
pub const STATUS_OK: u16 = 200;

/// The status of a request for a key that is not bound.
pub const STATUS_NOT_FOUND: u16 = 404;

/// The number of exchanges in one round trip.
pub const ROUND_TRIP_STEPS: usize = 7;

/// The method of a request.
#[derive(Clone, Copy, Debug, PartialEq, Eq, Structural)]
pub enum Method {
    Get,
    Put,
    Delete,
}

/// One exchange of the round trip: the request to send, and the answer that
/// a correct server gives to it.
#[derive(Debug)]
pub struct Exchange {
    pub method: Method,
    pub url: String,
    /// The body of the request; only a `Put` has one.
    pub body: Option<String>,
    pub expect_status: u16,
    /// The body that the answer must carry, where the round trip reads it.
    pub expect_body: Option<String>,
}

/// An exchange, with its strings as sequences of characters.
pub struct ExchangeView {
    pub method: Method,
    pub url: Seq<char>,
    pub body: Option<Seq<char>>,
    pub expect_status: u16,
    pub expect_body: Option<Seq<char>>,
}

/// A string that may be missing, as a sequence of characters.
pub open spec fn text_of(s: Option<String>) -> Option<Seq<char>> {
    match s {
        Some(t) => Some(t@),
        None => None,
    }
}

impl View for Exchange {
    type V = ExchangeView;

    open spec fn view(&self) -> ExchangeView {
        ExchangeView {
            method: self.method,
            url: self.url@,
            body: text_of(self.body),
            expect_status: self.expect_status,
            expect_body: text_of(self.expect_body),
        }
    }
}

impl ExchangeView {
    /// Whether an answer with `status`, and with `body` where the body was
    /// read, is the answer that the exchange expects. A body that could
    /// not be read never is.
    pub open spec fn accepts(self, status: u16, body: Option<Seq<char>>) -> bool {
        &&& status == self.expect_status
        &&& self.expect_body is Some ==> body == self.expect_body
    }
}

/// The path under which the server keeps the records of database `db_id`.
pub open spec fn base_path_of(db_id: Seq<char>) -> Seq<char> {
    T_ENDPOINT@ + T_BASEURI@ + "/"@ + db_id + "/"@
}

/// The address of the record that the round trip works on.
pub open spec fn record_url_of(db_id: Seq<char>) -> Seq<char> {
    base_path_of(db_id) + T_KEY@
}

/// The value that the round trip stores in database `db_id`.
pub open spec fn test_value_of(db_id: Seq<char>) -> Seq<char> {
    "helloworld "@ + db_id
}

/// The exchange at position `step` of the round trip on database `db_id`:
/// the record is missing at first, both for a read and for a removal; it is
/// then stored, read back, and removed; and then it is missing again, both
/// for a read and for a removal.
pub open spec fn exchange_at(db_id: Seq<char>, step: int) -> ExchangeView {
    let url = record_url_of(db_id);
    let value = test_value_of(db_id);
    let missing = |method: Method|
        ExchangeView {
            method,
            url,
            body: None,
            expect_status: STATUS_NOT_FOUND,
            expect_body: None,
        };
    if step == 0 {
        missing(Method::Get)
    } else if step == 1 {
        missing(Method::Delete)
    } else if step == 2 {
        ExchangeView {
            method: Method::Put,
            url,
            body: Some(value),
            expect_status: STATUS_OK,
            expect_body: None,
        }
    } else if step == 3 {
        ExchangeView {
            method: Method::Get,
            url,
            body: None,
            expect_status: STATUS_OK,
            expect_body: Some(value),
        }
    } else if step == 4 {
        ExchangeView {
            method: Method::Delete,
            url,
            body: None,
            expect_status: STATUS_OK,
            expect_body: None,
        }
    } else if step == 5 {
        missing(Method::Get)
    } else {
        missing(Method::Delete)
    }
}

/// The path under which the server keeps the records of database `db_id`.
pub fn base_path(db_id: &str) -> (path: String)
    ensures
        path@ == base_path_of(db_id@),
{
    let mut path = String::from_str(T_ENDPOINT);
    path.append(T_BASEURI);
    path.append("/");
    path.append(db_id);
    path.append("/");
    path
}

/// The address of the record that the round trip works on.
pub fn record_url(db_id: &str) -> (url: String)
    ensures
        url@ == record_url_of(db_id@),
{
    let mut url = base_path(db_id);
    url.append(T_KEY);
    url
}

/// The value that the round trip stores in database `db_id`.
pub fn test_value(db_id: &str) -> (value: String)
    ensures
        value@ == test_value_of(db_id@),
{
    let mut value = String::from_str("helloworld ");
    value.append(db_id);
    value
}

/// An exchange that expects the record to be missing.
fn expect_missing(method: Method, db_id: &str) -> (e: Exchange)
    ensures
        e@ == (ExchangeView {
            method,
            url: record_url_of(db_id@),
            body: None,
            expect_status: STATUS_NOT_FOUND,
            expect_body: None,
        }),
{
    Exchange {
        method,
        url: record_url(db_id),
        body: None,
        expect_status: STATUS_NOT_FOUND,
        expect_body: None,
    }
}

/// The round trip on database `db_id`, exchange by exchange.
pub fn round_trip(db_id: &str) -> (script: Vec<Exchange>)
    ensures
        script@.len() == ROUND_TRIP_STEPS,
        forall|step: int|
            0 <= step < ROUND_TRIP_STEPS ==> (#[trigger] script@[step])@ == exchange_at(
                db_id@,
                step,
            ),
{
    let mut script: Vec<Exchange> = Vec::new();
    script.push(expect_missing(Method::Get, db_id));
    script.push(expect_missing(Method::Delete, db_id));
    script.push(
        Exchange {
            method: Method::Put,
            url: record_url(db_id),
            body: Some(test_value(db_id)),
            expect_status: STATUS_OK,
            expect_body: None,
        },
    );
    script.push(
        Exchange {
            method: Method::Get,
            url: record_url(db_id),
            body: None,
            expect_status: STATUS_OK,
            expect_body: Some(test_value(db_id)),
        },
    );
    script.push(
        Exchange {
            method: Method::Delete,
            url: record_url(db_id),
            body: None,
            expect_status: STATUS_OK,
            expect_body: None,
        },
    );
    script.push(expect_missing(Method::Get, db_id));
    script.push(expect_missing(Method::Delete, db_id));
    script
}

impl Exchange {
    /// Whether the body of the answer has to be read.
    pub fn reads_body(&self) -> (reads: bool)
        ensures
            reads == (self@.expect_body is Some),
    {
        self.expect_body.is_some()
    }

    /// Whether an answer with `status`, and with `body` where the body was
    /// read, is the answer that the exchange expects.
    pub fn accepts(&self, status: u16, body: &Option<String>) -> (ok: bool)
        ensures
            ok == self@.accepts(status, text_of(*body)),
    {
        if status != self.expect_status {
            return false;
        }
        match &self.expect_body {
            None => true,
            Some(want) => match body {
                None => false,
                Some(got) => *got == *want,
            },
        }
    }
}

} // verus!
