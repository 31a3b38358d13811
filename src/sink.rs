use crate::plugin::is_digit;
use vstd::prelude::*;

verus! {

/// The query that turns a request body into rows of `db.table`, URL-encoded,
/// in two parts around the table name.
pub const INSERT_QUERY_HEAD: &'static str = "/?query=INSERT%20INTO%20";

pub const INSERT_QUERY_TAIL: &'static str = "%20FORMAT%20JSONEachRow";

/// The bulk-insert endpoint for newline-delimited JSON rows of `db.table`.
pub open spec fn insert_url_text(base: Seq<char>, db: Seq<char>, table: Seq<char>) -> Seq<char> {
    base + INSERT_QUERY_HEAD@ + db + seq!['.'] + table + INSERT_QUERY_TAIL@
}

pub fn insert_url(base: &str, db: &str, table: &str) -> (r: String)
    ensures
        r@ == insert_url_text(base@, db@, table@),
{
    let mut url = String::from_str(base);
    url.append(INSERT_QUERY_HEAD);
    url.append(db);
    url.append(".");
    url.append(table);
    url.append(INSERT_QUERY_TAIL);
    proof {
        reveal_strlit(".");
    }
    url
}

/// Whether an HTTP status reports success (the 2xx range).
pub fn is_success_status(code: u16) -> (r: bool)
    ensures
        r == (200 <= code && code <= 299),
{
    200 <= code && code <= 299
}

/// The value of a run of decimal digits.
pub open spec fn digits_value(digits: Seq<char>) -> int
    decreases digits.len(),
{
    if digits.len() == 0 {
        0
    } else {
        digits_value(digits.drop_last()) * 10 + (digits.last() as int - '0' as int)
    }
}

/// The part of a text that holds the digits: all of it but a leading `+`.
pub open spec fn unsigned_digits(text: Seq<char>) -> Seq<char> {
    if text.len() > 0 && text[0] == '+' {
        text.drop_first()
    } else {
        text
    }
}

/// Whether every character is an ASCII decimal digit.
pub open spec fn all_digits(text: Seq<char>) -> bool {
    forall|i: int| 0 <= i < text.len() ==> is_digit(#[trigger] text[i])
}

/// The number that a text writes in decimal as `str::parse` reads it for an
/// unsigned type: an optional leading `+`, then one or more ASCII digits.
/// Anything else writes no number.
pub open spec fn decimal_value(text: Seq<char>) -> Option<int> {
    let digits = unsigned_digits(text);
    if digits.len() > 0 && all_digits(digits) {
        Some(digits_value(digits))
    } else {
        None
    }
}

/// The number a text writes, where it fits below `max`.
pub open spec fn decimal_at_most(text: Seq<char>, max: int) -> Option<int> {
    match decimal_value(text) {
        Some(v) => if v <= max {
            Some(v)
        } else {
            None
        },
        None => None,
    }
}

proof fn lemma_digits_value_grows(digits: Seq<char>, j: int, k: int)
    requires
        0 <= j <= k <= digits.len(),
        forall|i: int| 0 <= i < digits.len() ==> is_digit(#[trigger] digits[i]),
    ensures
        0 <= digits_value(digits.take(j)) <= digits_value(digits.take(k)),
    decreases k,
{
    if k > 0 {
        if j < k {
            lemma_digits_value_grows(digits, j, k - 1);
        } else {
            lemma_digits_value_grows(digits, j - 1, k - 1);
        }
        assert(digits.take(k).drop_last() =~= digits.take(k - 1));
        assert(digits.take(k).last() == digits[k - 1]);
    } else {
        assert(digits.take(0) =~= Seq::<char>::empty());
    }
}

/// Reads the number that `text` writes in decimal, where it is at most `max`.
pub fn parse_decimal(text: &str, max: u64) -> (r: Option<u64>)
    ensures
        r is Some <==> decimal_at_most(text@, max as int) is Some,
        r is Some ==> decimal_at_most(text@, max as int) == Some(r->0 as int),
{
    let n = text.unicode_len();
    let start: usize = if n > 0 && text.get_char(0) == '+' {
        1
    } else {
        0
    };
    let ghost digits = text@.skip(start as int);
    proof {
        if start == 1 {
            assert(digits =~= text@.drop_first());
        } else {
            assert(digits =~= text@);
        }
    }
    if start == n {
        return None;
    }
    let mut i: usize = start;
    let mut value: u64 = 0;
    while i < n
        invariant
            start <= i <= n,
            start < n,
            n == text@.len(),
            digits == text@.skip(start as int),
            start == 1 <==> (text@.len() > 0 && text@[0] == '+'),
            digits == unsigned_digits(text@),
            forall|j: int| 0 <= j < i - start ==> is_digit(#[trigger] digits[j]),
            value as int == digits_value(digits.take(i - start)),
            value <= max,
        decreases n - i,
    {
        let c = text.get_char(i);
        assert(c == digits[i - start]);
        if !('0' <= c && c <= '9') {
            assert(!is_digit(digits[i - start]));
            assert(decimal_value(text@) is None);
            return None;
        }
        let d = (c as u32 - '0' as u32) as u64;
        assert(d as int == c as int - '0' as int);
        assert(digits.take(i - start + 1).drop_last() =~= digits.take(i - start));
        assert(digits.take(i - start + 1).last() == c);
        assert(digits_value(digits.take(i - start + 1)) == value * 10 + d);
        if d > max || value > (max - d) / 10 {
            proof {
                assert(value * 10 + d > max) by (nonlinear_arith)
                    requires
                        d > max || value > (max - d) / 10,
                        d <= 9;
                if all_digits(digits) {
                    lemma_digits_value_grows(digits, i - start + 1, digits.len() as int);
                    assert(digits.take(digits.len() as int) =~= digits);
                    assert(digits_value(digits) > max);
                }
                assert(decimal_at_most(text@, max as int) is None);
            }
            return None;
        }
        assert(value * 10 + d <= max) by (nonlinear_arith)
            requires
                d <= max,
                value <= (max - d) / 10;
        value = value * 10 + d;
        i = i + 1;
    }
    assert(digits.take(n - start) =~= digits);
    Some(value)
}

pub const DEFAULT_NATS_URL: &'static str = "nats://127.0.0.1:4222";

pub const DEFAULT_SUBJECT: &'static str = "WALLET.updates";

pub const DEFAULT_SINK_URL: &'static str = "http://127.0.0.1:8123";

pub const DEFAULT_USER: &'static str = "dev";

pub const DEFAULT_PASSWORD: &'static str = "dev";

pub const DEFAULT_DATABASE: &'static str = "default";

pub const DEFAULT_TABLE: &'static str = "wallet_account_updates";

pub const DEFAULT_BATCH_SIZE: usize = 200;

pub const DEFAULT_FLUSH_MS: u64 = 500;

/// The ingestor's settings, fixed at startup.
pub struct IngestorConfig {
    pub nats_url: String,
    pub subject: String,
    pub sink_url: String,
    pub user: String,
    pub password: String,
    pub database: String,
    pub table: String,
    pub batch_size: usize,
    pub flush_ms: u64,
}

/// A text that may be absent, with its default.
pub open spec fn or_default(v: Option<String>, default: Seq<char>) -> Seq<char> {
    match v {
        Some(s) => s@,
        None => default,
    }
}

/// A value that may be absent, with its default.
pub open spec fn value_or<T>(v: Option<T>, default: T) -> T {
    match v {
        Some(n) => n,
        None => default,
    }
}

/// The number that a setting writes, if it is present and parses.
pub open spec fn parsed_usize(v: Option<String>) -> Option<usize> {
    match v {
        Some(s) => match decimal_at_most(s@, usize::MAX as int) {
            Some(n) => Some(n as usize),
            None => None,
        },
        None => None,
    }
}

/// The number that a setting writes, if it is present and parses.
pub open spec fn parsed_u64(v: Option<String>) -> Option<u64> {
    match v {
        Some(s) => match decimal_at_most(s@, u64::MAX as int) {
            Some(n) => Some(n as u64),
            None => None,
        },
        None => None,
    }
}

pub(crate) fn text_setting(v: Option<String>, default: &str) -> (r: String)
    ensures
        r@ == or_default(v, default@),
{
    match v {
        Some(s) => s,
        None => String::from_str(default),
    }
}

impl IngestorConfig {
    /// The settings from the values given, each absent one replaced by its
    /// default.
    pub fn new(
        nats_url: Option<String>,
        subject: Option<String>,
        sink_url: Option<String>,
        user: Option<String>,
        password: Option<String>,
        database: Option<String>,
        table: Option<String>,
        batch_size: Option<usize>,
        flush_ms: Option<u64>,
    ) -> (r: IngestorConfig)
        ensures
            r.nats_url@ == or_default(nats_url, DEFAULT_NATS_URL@),
            r.subject@ == or_default(subject, DEFAULT_SUBJECT@),
            r.sink_url@ == or_default(sink_url, DEFAULT_SINK_URL@),
            r.user@ == or_default(user, DEFAULT_USER@),
            r.password@ == or_default(password, DEFAULT_PASSWORD@),
            r.database@ == or_default(database, DEFAULT_DATABASE@),
            r.table@ == or_default(table, DEFAULT_TABLE@),
            r.batch_size == value_or(batch_size, DEFAULT_BATCH_SIZE),
            r.flush_ms == value_or(flush_ms, DEFAULT_FLUSH_MS),
    {
        IngestorConfig {
            nats_url: text_setting(nats_url, DEFAULT_NATS_URL),
            subject: text_setting(subject, DEFAULT_SUBJECT),
            sink_url: text_setting(sink_url, DEFAULT_SINK_URL),
            user: text_setting(user, DEFAULT_USER),
            password: text_setting(password, DEFAULT_PASSWORD),
            database: text_setting(database, DEFAULT_DATABASE),
            table: text_setting(table, DEFAULT_TABLE),
            batch_size: match batch_size {
                Some(n) => n,
                None => DEFAULT_BATCH_SIZE,
            },
            flush_ms: match flush_ms {
                Some(n) => n,
                None => DEFAULT_FLUSH_MS,
            },
        }
    }

    /// The settings from texts as the environment gives them: the two numbers
    /// are parsed, and each absent setting, or number that does not parse, is
    /// replaced by its default.
    pub fn from_values(
        nats_url: Option<String>,
        subject: Option<String>,
        sink_url: Option<String>,
        user: Option<String>,
        password: Option<String>,
        database: Option<String>,
        table: Option<String>,
        batch_size: Option<String>,
        flush_ms: Option<String>,
    ) -> (r: IngestorConfig)
        ensures
            r.nats_url@ == or_default(nats_url, DEFAULT_NATS_URL@),
            r.subject@ == or_default(subject, DEFAULT_SUBJECT@),
            r.sink_url@ == or_default(sink_url, DEFAULT_SINK_URL@),
            r.user@ == or_default(user, DEFAULT_USER@),
            r.password@ == or_default(password, DEFAULT_PASSWORD@),
            r.database@ == or_default(database, DEFAULT_DATABASE@),
            r.table@ == or_default(table, DEFAULT_TABLE@),
            r.batch_size == value_or(parsed_usize(batch_size), DEFAULT_BATCH_SIZE),
            r.flush_ms == value_or(parsed_u64(flush_ms), DEFAULT_FLUSH_MS),
    {
        let batch = match &batch_size {
            Some(s) => match parse_decimal(s.as_str(), usize::MAX as u64) {
                Some(n) => Some(n as usize),
                None => None,
            },
            None => None,
        };
        let flush = match &flush_ms {
            Some(s) => parse_decimal(s.as_str(), u64::MAX),
            None => None,
        };
        IngestorConfig::new(nats_url, subject, sink_url, user, password, database, table, batch, flush)
    }

    /// The bulk-insert endpoint of these settings.
    pub fn insert_url(&self) -> (r: String)
        ensures
            r@ == insert_url_text(self.sink_url@, self.database@, self.table@),
    {
        insert_url(self.sink_url.as_str(), self.database.as_str(), self.table.as_str())
    }
}

} // verus!
