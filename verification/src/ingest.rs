use vstd::prelude::*;
use vstd::string::StringSliceAdditionalSpecFns;
use vstd::utf8::{encode_utf8, is_char_boundary};
use crate::cli::chars_of;
use crate::engine_util::util::bytes_to_vec;

verus! {

broadcast use vstd::string::group_string_axioms;

/// Kind of generated finance record.
#[derive(Debug, Clone, Copy, PartialEq, Eq, Structural)]
pub enum FinanceKind {
    Txn,
    Account,
    Quote,
}

impl FinanceKind {
    /// The kind named `s`: `account`, `quote`, and transactions for any
    /// other name.
    pub fn parse(s: &str) -> (r: Self)
        ensures
            s@ == "account"@ ==> r == FinanceKind::Account,
            s@ == "quote"@ ==> r == FinanceKind::Quote,
            s@ != "account"@ && s@ != "quote"@ ==> r == FinanceKind::Txn,
    {
        proof {
            reveal_strlit("account");
            reveal_strlit("quote");
            assert("quote"@.len() == 5);
            assert("account"@.len() == 7);
        }
        let name = s.to_owned();
        let is_account = name == "account".to_owned();
        assert(is_account == (s@ == "account"@));
        if is_account {
            FinanceKind::Account
        } else if name == "quote".to_owned() {
            FinanceKind::Quote
        } else {
            FinanceKind::Txn
        }
    }
}

impl FinanceKind {
    /// The name under which records of this kind are counted and shown.
    pub open spec fn tag_view(self) -> Seq<char> {
        match self {
            FinanceKind::Txn => "txn"@,
            FinanceKind::Account => "account"@,
            FinanceKind::Quote => "quote"@,
        }
    }

    /// The name under which records of this kind are counted and shown:
    /// `txn`, `account` or `quote`.
    pub fn tag(&self) -> (r: &'static str)
        ensures
            r@ == self.tag_view(),
    {
        match self {
            FinanceKind::Txn => "txn",
            FinanceKind::Account => "account",
            FinanceKind::Quote => "quote",
        }
    }
}

fn same_text(a: &str, b: &str) -> (r: bool)
    ensures
        r == (a@ == b@),
{
    a.to_owned() == b.to_owned()
}

fn text(s: &str) -> (r: String)
    ensures
        r@ == s@,
{
    s.to_string()
}

/// `head` followed by `tail`.
fn joined(head: &str, tail: &str) -> (r: String)
    ensures
        r@ == head@ + tail@,
{
    let mut out = head.to_string();
    out.append(tail);
    out
}

/// The decimal digits of `n`.
pub open spec fn decimal_text(n: nat) -> Seq<char>
    decreases n,
{
    if n < 10 {
        seq![digit_char(n)]
    } else {
        decimal_text(n / 10).push(digit_char(n % 10))
    }
}

/// The character of the digit `d`.
pub open spec fn digit_char(d: nat) -> char {
    if d == 0 {
        '0'
    } else if d == 1 {
        '1'
    } else if d == 2 {
        '2'
    } else if d == 3 {
        '3'
    } else if d == 4 {
        '4'
    } else if d == 5 {
        '5'
    } else if d == 6 {
        '6'
    } else if d == 7 {
        '7'
    } else if d == 8 {
        '8'
    } else {
        '9'
    }
}

/// `n` in decimal, padded with zeros in front to at least `width` digits.
pub open spec fn padded_decimal(n: nat, width: nat) -> Seq<char> {
    let digits = decimal_text(n);
    if digits.len() >= width {
        digits
    } else {
        Seq::new((width - digits.len()) as nat, |i: int| '0') + digits
    }
}

fn digit_text(d: u32) -> (r: &'static str)
    requires
        d < 10,
    ensures
        r@ == seq![digit_char(d as nat)],
{
    proof {
        reveal_strlit("0");
        reveal_strlit("1");
        reveal_strlit("2");
        reveal_strlit("3");
        reveal_strlit("4");
        reveal_strlit("5");
        reveal_strlit("6");
        reveal_strlit("7");
        reveal_strlit("8");
        reveal_strlit("9");
    }
    let r = match d {
        0 => "0",
        1 => "1",
        2 => "2",
        3 => "3",
        4 => "4",
        5 => "5",
        6 => "6",
        7 => "7",
        8 => "8",
        _ => "9",
    };
    assert(r@ =~= seq![digit_char(d as nat)]);
    r
}

fn push_decimal_text(out: &mut String, n: u32)
    ensures
        final(out)@ == old(out)@ + decimal_text(n as nat),
    decreases n,
{
    if n < 10 {
        out.append(digit_text(n));
        proof {
            assert(final(out)@ =~= old(out)@ + decimal_text(n as nat));
        }
    } else {
        push_decimal_text(out, n / 10);
        out.append(digit_text(n % 10));
        proof {
            assert(final(out)@ =~= old(out)@ + decimal_text(n as nat));
        }
    }
}

fn push_padded(out: &mut String, n: u32, width: usize)
    ensures
        final(out)@ == old(out)@ + padded_decimal(n as nat, width as nat),
{
    let mut digits = String::new();
    push_decimal_text(&mut digits, n);
    let count = digits.as_str().unicode_len();
    let mut pad: usize = 0;
    while count + pad < width
        invariant
            count == decimal_text(n as nat).len(),
            digits@ == decimal_text(n as nat),
            count + pad <= width || pad == 0,
            out@ == old(out)@ + Seq::new(pad as nat, |i: int| '0'),
        decreases width - count - pad,
    {
        proof {
            reveal_strlit("0");
        }
        out.append("0");
        proof {
            assert(out@ =~= old(out)@ + Seq::new((pad + 1) as nat, |i: int| '0'));
        }
        pad += 1;
    }
    out.append(digits.as_str());
    proof {
        if decimal_text(n as nat).len() >= width {
            assert(pad == 0);
            assert(Seq::new(0, |i: int| '0') + decimal_text(n as nat) =~= decimal_text(n as nat));
        } else {
            assert(pad == width - count);
        }
        assert(final(out)@ =~= old(out)@ + padded_decimal(n as nat, width as nat));
    }
}

/// The key under which record `i` of a load run with key prefix `prefix`
/// is written: `{prefix}txn:T{i:08}` for transactions,
/// `{prefix}acct:A{i:08}` for accounts, `{prefix}quote:{symbol}` for
/// quotes of `symbol`.
pub fn finance_key(kind: FinanceKind, i: u32, prefix: &str, symbol: &str) -> (r: String)
    ensures
        r@ == prefix@ + match kind {
            FinanceKind::Txn => "txn:T"@ + padded_decimal(i as nat, 8),
            FinanceKind::Account => "acct:A"@ + padded_decimal(i as nat, 8),
            FinanceKind::Quote => "quote:"@ + symbol@,
        },
{
    let mut key = text(prefix);
    match kind {
        FinanceKind::Txn => {
            key.append("txn:T");
            push_padded(&mut key, i, 8);
        },
        FinanceKind::Account => {
            key.append("acct:A");
            push_padded(&mut key, i, 8);
        },
        FinanceKind::Quote => {
            key.append("quote:");
            key.append(symbol);
        },
    }
    proof {
        assert(key@ =~= prefix@ + match kind {
            FinanceKind::Txn => "txn:T"@ + padded_decimal(i as nat, 8),
            FinanceKind::Account => "acct:A"@ + padded_decimal(i as nat, 8),
            FinanceKind::Quote => "quote:"@ + symbol@,
        });
    }
    key
}

/// The default number of records a load run writes.
pub const DEFAULT_RECORD_COUNT: u32 = 500;

/// What a load run writes: how many records, under which key prefix, of
/// which kind. Absent settings take their defaults: 500 records, prefix
/// `demo:`, transactions.
pub fn start_settings(count: Option<u32>, prefix: Option<String>, kind: Option<&str>) -> (r: (
    u32,
    String,
    FinanceKind,
))
    ensures
        r.0 == match count {
            Some(c) => c,
            None => DEFAULT_RECORD_COUNT,
        },
        r.1@ == match prefix {
            Some(p) => p@,
            None => "demo:"@,
        },
        kind is None ==> r.2 == FinanceKind::Txn,
        kind matches Some(k) && k@ == "account"@ ==> r.2 == FinanceKind::Account,
        kind matches Some(k) && k@ == "quote"@ ==> r.2 == FinanceKind::Quote,
        kind matches Some(k) && k@ != "account"@ && k@ != "quote"@ ==> r.2 == FinanceKind::Txn,
{
    let n = match count {
        Some(c) => c,
        None => DEFAULT_RECORD_COUNT,
    };
    let p = match prefix {
        Some(p) => p,
        None => text("demo:"),
    };
    let name = match kind {
        Some(k) => k,
        None => "txn",
    };
    proof {
        reveal_strlit("txn");
        reveal_strlit("account");
        reveal_strlit("quote");
        assert("txn"@.len() == 3 && "account"@.len() == 7 && "quote"@.len() == 5);
        assert("txn"@[0] != "quote"@[0]);
    }
    (n, p, FinanceKind::parse(name))
}

// ---------------------------------------------------------------------------
// Counters and events
// ---------------------------------------------------------------------------

/// Counters of the operations the ingest service ran: puts, gets, deletes
/// and failures, and puts by kind of record.
#[derive(Debug, Clone, Copy, PartialEq, Eq, Structural)]
pub struct Metrics {
    pub put: u64,
    pub get: u64,
    pub del: u64,
    pub err: u64,
    pub put_txn: u64,
    pub put_account: u64,
    pub put_quote: u64,
}

/// `x` plus one when `b` holds.
pub open spec fn bump(x: u64, b: bool) -> u64 {
    if b {
        (x + 1) as u64
    } else {
        x
    }
}

impl Metrics {
    /// Every counter can still grow.
    pub open spec fn has_room(self) -> bool {
        &&& self.put < u64::MAX
        &&& self.get < u64::MAX
        &&& self.del < u64::MAX
        &&& self.err < u64::MAX
        &&& self.put_txn < u64::MAX
        &&& self.put_account < u64::MAX
        &&& self.put_quote < u64::MAX
    }

    /// The counters after operation `op` ran with outcome `ok` on a record
    /// of kind `kind`: `put`, `get` and `del` count themselves, a put also
    /// counts under its kind, and a failure counts as an error.
    pub open spec fn after_record(self, op: Seq<char>, ok: bool, kind: Option<Seq<char>>) -> Metrics {
        let put = op == "put"@;
        Metrics {
            put: bump(self.put, put),
            get: bump(self.get, op == "get"@),
            del: bump(self.del, op == "del"@),
            err: bump(self.err, !ok),
            put_txn: bump(self.put_txn, put && kind == Some("txn"@)),
            put_account: bump(self.put_account, put && kind == Some("account"@)),
            put_quote: bump(self.put_quote, put && kind == Some("quote"@)),
        }
    }

    /// Counts operation `op` with outcome `ok` on a record of kind `kind`.
    pub fn record(&mut self, op: &str, ok: bool, kind: Option<&str>)
        requires
            old(self).has_room(),
        ensures
            *final(self) == old(self).after_record(
                op@,
                ok,
                match kind {
                    Some(k) => Some(k@),
                    None => None,
                },
            ),
    {
        let put = same_text(op, "put");
        if put {
            self.put = self.put + 1;
        } else if same_text(op, "get") {
            self.get = self.get + 1;
        } else if same_text(op, "del") {
            self.del = self.del + 1;
        }
        proof {
            reveal_strlit("put");
            reveal_strlit("get");
            reveal_strlit("del");
            assert("put"@ != "get"@ && "put"@ != "del"@ && "get"@ != "del"@) by {
                assert("put"@[0] != "get"@[0]);
                assert("put"@[0] != "del"@[0]);
                assert("get"@[0] != "del"@[0]);
            }
            reveal_strlit("txn");
            reveal_strlit("account");
            reveal_strlit("quote");
            assert("txn"@.len() == 3 && "account"@.len() == 7 && "quote"@.len() == 5);
        }
        if put {
            match kind {
                Some(k) => {
                    if same_text(k, "txn") {
                        self.put_txn = self.put_txn + 1;
                    } else if same_text(k, "account") {
                        self.put_account = self.put_account + 1;
                    } else if same_text(k, "quote") {
                        self.put_quote = self.put_quote + 1;
                    }
                },
                None => {},
            }
        }
        if !ok {
            self.err = self.err + 1;
        }
    }

    /// Counts an operation that failed before it could run.
    pub fn record_err(&mut self)
        requires
            old(self).err < u64::MAX,
        ensures
            *final(self) == (Metrics { err: (old(self).err + 1) as u64, ..*old(self) }),
    {
        self.err = self.err + 1;
    }
}

impl Default for Metrics {
    fn default() -> (r: Self)
        ensures
            r == (Metrics {
                put: 0,
                get: 0,
                del: 0,
                err: 0,
                put_txn: 0,
                put_account: 0,
                put_quote: 0,
            }),
    {
        Metrics { put: 0, get: 0, del: 0, err: 0, put_txn: 0, put_account: 0, put_quote: 0 }
    }
}

/// The number of events the ingest service keeps.
pub const EVENT_CAPACITY: usize = 200;

/// One operation as the ingest service shows it: when, which operation on
/// which key, its outcome and duration, the error, the kind of record and a
/// sample of its value.
#[derive(Debug)]
pub struct Event {
    pub ts: u128,
    pub op: String,
    pub key: String,
    pub ok: bool,
    pub ms: u128,
    pub err: Option<String>,
    pub kind: Option<String>,
    pub sample: Option<String>,
}

/// The most recent events, newest first, at most `EVENT_CAPACITY` of them.
#[derive(Debug)]
pub struct EventLog {
    pub events: Vec<Event>,
}

impl EventLog {
    pub open spec fn wf(&self) -> bool {
        self.events@.len() <= EVENT_CAPACITY
    }

    pub fn new() -> (r: Self)
        ensures
            r.wf(),
            r.events@.len() == 0,
    {
        EventLog { events: Vec::new() }
    }

    /// Adds `e` as the newest event and forgets the oldest one when there
    /// are more than `EVENT_CAPACITY`.
    pub fn push(&mut self, e: Event)
        ensures
            final(self).wf(),
            old(self).events@.len() < EVENT_CAPACITY ==> final(self).events@ == seq![e] + old(self).events@,
            old(self).events@.len() >= EVENT_CAPACITY ==> final(self).events@ == (seq![e]
                + old(self).events@).take(EVENT_CAPACITY as int),
    {
        let ghost before = self.events@;
        self.events.insert(0, e);
        proof {
            assert(self.events@ =~= seq![e] + before);
        }
        self.events.truncate(EVENT_CAPACITY);
    }
}

// ---------------------------------------------------------------------------
// Key-value operations
// ---------------------------------------------------------------------------

/// A key-value request of the ingest service, as it goes to the store.
#[derive(Debug)]
pub enum KvRequest {
    Put { cf: String, key: Vec<u8>, value: Vec<u8> },
    Get { cf: String, key: Vec<u8> },
    Delete { cf: String, key: Vec<u8> },
}

/// The answer of the ingest service to a key-value operation.
#[derive(Debug)]
pub struct KvResponse {
    pub success: bool,
    pub message: String,
    pub data: Option<String>,
}

/// The column family an operation names, `default` when it names none.
pub open spec fn cf_or_default(cf: Option<String>) -> Seq<char> {
    match cf {
        Some(c) => c@,
        None => "default"@,
    }
}

/// What the answer to a rejected operation holds: failure, `message`, no
/// data.
pub open spec fn is_failure(r: KvResponse, message: Seq<char>) -> bool {
    !r.success && r.message@ == message && r.data is None
}

/// The request that operation `op` on `key` sends, or the answer when the
/// service refuses it: a put needs a value, and only `put`, `get` and
/// `delete` are known.
pub fn plan_kv_operation(op: &str, cf: Option<String>, key: &str, value: Option<String>) -> (r: Result<
    KvRequest,
    KvResponse,
>)
    ensures
        op@ == "put"@ && value is Some ==> (r matches Ok(KvRequest::Put { cf: c, key: k, value: v })
            && c@ == cf_or_default(cf) && k@ == key.spec_bytes() && v@
            == encode_utf8(value->Some_0@)),
        op@ == "put"@ && value is None ==> (r matches Err(resp) && is_failure(
            resp,
            "PUT 操作需要提供 value 参数"@,
        )),
        op@ == "get"@ ==> (r matches Ok(KvRequest::Get { cf: c, key: k }) && c@ == cf_or_default(cf) && k@ == key.spec_bytes()),
        op@ == "delete"@ ==> (r matches Ok(KvRequest::Delete { cf: c, key: k }) && c@ == cf_or_default(cf) && k@ == key.spec_bytes()),
        op@ != "put"@ && op@ != "get"@ && op@ != "delete"@ ==> (r matches Err(resp) && is_failure(
            resp,
            "不支持的操作类型: "@ + op@,
        )),
{
    proof {
        reveal_strlit("put");
        reveal_strlit("get");
        reveal_strlit("delete");
        assert("put"@[0] != "get"@[0] && "put"@[0] != "delete"@[0] && "get"@[0] != "delete"@[0]);
    }
    let family = match cf {
        Some(c) => c,
        None => text("default"),
    };
    let key_bytes = bytes_to_vec(key.as_bytes());
    if same_text(op, "put") {
        match value {
            Some(v) => {
                let value_bytes = bytes_to_vec(v.as_str().as_bytes());
                Ok(KvRequest::Put { cf: family, key: key_bytes, value: value_bytes })
            },
            None => Err(
                KvResponse { success: false, message: text("PUT 操作需要提供 value 参数"), data: None },
            ),
        }
    } else if same_text(op, "get") {
        Ok(KvRequest::Get { cf: family, key: key_bytes })
    } else if same_text(op, "delete") {
        Ok(KvRequest::Delete { cf: family, key: key_bytes })
    } else {
        Err(KvResponse { success: false, message: joined("不支持的操作类型: ", op), data: None })
    }
}

/// The answer to a request that reached the store: `outcome` is what the
/// store returned (for a get, the value, `None` when the key is absent) or
/// the error it reported, as text.
pub fn kv_response(request: &KvRequest, outcome: Result<Option<Vec<u8>>, String>) -> (r: KvResponse)
    ensures
        match (request, outcome) {
            (KvRequest::Put { .. }, Ok(_)) => r.success && r.message@ == "PUT 操作成功"@ && r.data is None,
            (KvRequest::Put { .. }, Err(e)) => is_failure(r, "PUT 操作失败: "@ + e@),
            (KvRequest::Get { .. }, Ok(None)) => r.success && r.message@ == "GET 操作成功"@ && (r.data
                matches Some(d) && d@ == "null"@),
            (KvRequest::Get { .. }, Ok(Some(v))) => r.success && r.message@ == "GET 操作成功"@ && (r.data
                matches Some(d) && d@ == utf8_lossy(v@)),
            (KvRequest::Get { .. }, Err(e)) => is_failure(r, "GET 操作失败: "@ + e@),
            (KvRequest::Delete { .. }, Ok(_)) => r.success && r.message@ == "DELETE 操作成功"@ && r.data
                is None,
            (KvRequest::Delete { .. }, Err(e)) => is_failure(r, "DELETE 操作失败: "@ + e@),
        },
{
    match request {
        KvRequest::Put { .. } => match outcome {
            Ok(_) => KvResponse { success: true, message: text("PUT 操作成功"), data: None },
            Err(e) => KvResponse { success: false, message: joined("PUT 操作失败: ", e.as_str()), data: None },
        },
        KvRequest::Get { .. } => match outcome {
            Ok(found) => {
                let value = match found {
                    None => text("null"),
                    Some(v) => from_utf8_lossy(v.as_slice()),
                };
                KvResponse { success: true, message: text("GET 操作成功"), data: Some(value) }
            },
            Err(e) => KvResponse { success: false, message: joined("GET 操作失败: ", e.as_str()), data: None },
        },
        KvRequest::Delete { .. } => match outcome {
            Ok(_) => KvResponse { success: true, message: text("DELETE 操作成功"), data: None },
            Err(e) => KvResponse {
                success: false,
                message: joined("DELETE 操作失败: ", e.as_str()),
                data: None,
            },
        },
    }
}

/// `s` cut to its first `max_len` bytes.
pub fn truncate_for_event(s: &str, max_len: usize) -> (r: &str)
    requires
        s.spec_bytes().len() <= usize::MAX,
        s.spec_bytes().len() > max_len ==> is_char_boundary(s.spec_bytes(), max_len as int),
    ensures
        s.spec_bytes().len() <= max_len ==> r@ == s@,
        s.spec_bytes().len() > max_len ==> r.spec_bytes() == s.spec_bytes().take(max_len as int),
{
    if s.len() <= max_len {
        s
    } else {
        let (head, _) = s.split_at(max_len);
        head
    }
}

/// What `String::from_utf8_lossy` returns for the bytes `b`.
pub uninterp spec fn utf8_lossy(b: Seq<u8>) -> Seq<char>;

/// Decodes `b` with `String::from_utf8_lossy`. Claimed: the result depends
/// on the bytes alone; how invalid sequences are replaced is left unsaid.
#[verifier::external_body]
pub(crate) fn from_utf8_lossy(b: &[u8]) -> (r: String)
    ensures
        r@ == utf8_lossy(b@),
{
    String::from_utf8_lossy(b).to_string()
}

/// The index of the first `_` in `b`, if any.
pub open spec fn first_underscore(b: Seq<u8>) -> Option<int> {
    if exists|i: int| 0 <= i < b.len() && b[i] == 95u8 {
        Some(choose|i: int| 0 <= i < b.len() && b[i] == 95u8 && forall|j: int| 0 <= j < i ==> b[j] != 95u8)
    } else {
        None
    }
}

/// One stored entry of a storage tier, shown as text: the column family
/// (the key up to its first `_`, `default` when there is none), the key and
/// the value.
#[derive(Debug, Clone)]
pub struct TierEntry {
    pub cf: String,
    pub key: String,
    pub value: String,
}

impl TierEntry {
    pub fn from_raw(raw_key: &[u8], raw_value: &[u8]) -> (r: Self)
        ensures
            r.value@ == utf8_lossy(raw_value@),
            match first_underscore(raw_key@) {
                Some(i) => r.cf@ == utf8_lossy(raw_key@.take(i)) && r.key@ == utf8_lossy(
                    raw_key@.skip(i + 1),
                ),
                None => r.cf@ == "default"@ && r.key@ == utf8_lossy(raw_key@),
            },
    {
        let mut i: usize = 0;
        while i < raw_key.len() && raw_key[i] != 95u8
            invariant
                0 <= i <= raw_key@.len(),
                forall|j: int| 0 <= j < i ==> raw_key@[j] != 95u8,
            decreases raw_key@.len() - i,
        {
            i += 1;
        }
        let value = from_utf8_lossy(raw_value);
        if i < raw_key.len() {
            proof {
                assert(raw_key@[i as int] == 95u8 && forall|j: int|
                    0 <= j < i ==> raw_key@[j] != 95u8);
                let w = choose|k: int|
                    0 <= k < raw_key@.len() && raw_key@[k] == 95u8 && forall|j: int|
                        0 <= j < k ==> raw_key@[j] != 95u8;
                assert(w == i);
            }
            let head = vstd::slice::slice_subrange(raw_key, 0, i);
            let tail = vstd::slice::slice_subrange(raw_key, i + 1, raw_key.len());
            assert(head@ =~= raw_key@.take(i as int));
            assert(tail@ =~= raw_key@.skip(i + 1));
            TierEntry { cf: from_utf8_lossy(head), key: from_utf8_lossy(tail), value }
        } else {
            TierEntry { cf: "default".to_string(), key: from_utf8_lossy(raw_key), value }
        }
    }
}

// ---------------------------------------------------------------------------
// Migration to Redis
// ---------------------------------------------------------------------------

/// The Redis server a migration writes to when none is named.
pub fn redis_url_or_default(url: Option<String>) -> (r: String)
    ensures
        r@ == match url {
            Some(u) => u@,
            None => "redis://127.0.0.1:6379"@,
        },
{
    match url {
        Some(u) => u,
        None => text("redis://127.0.0.1:6379"),
    }
}

/// `s` starts with `prefix`.
pub open spec fn has_text_prefix(s: Seq<char>, prefix: Seq<char>) -> bool {
    prefix.len() <= s.len() && s.take(prefix.len() as int) == prefix
}

pub(crate) fn starts_with(s: &str, prefix: &str) -> (r: bool)
    ensures
        r == has_text_prefix(s@, prefix@),
{
    let cs = chars_of(s);
    let ps = chars_of(prefix);
    if ps.len() > cs.len() {
        return false;
    }
    let mut i: usize = 0;
    while i < ps.len()
        invariant
            cs@ == s@,
            ps@ == prefix@,
            ps@.len() <= cs@.len(),
            0 <= i <= ps@.len(),
            forall|j: int| 0 <= j < i ==> cs@[j] == ps@[j],
        decreases ps@.len() - i,
    {
        if cs[i] != ps[i] {
            proof {
                assert(s@.take(prefix@.len() as int)[i as int] != prefix@[i as int]);
            }
            return false;
        }
        i += 1;
    }
    proof {
        assert(s@.take(prefix@.len() as int) =~= prefix@);
    }
    true
}

/// The Redis key of a stored entry of column family `cf` under `key`: the
/// key alone in the default column family, else `cf:key`.
pub open spec fn redis_key_for(cf: Seq<char>, key: Seq<char>) -> Seq<char> {
    if cf == "default"@ {
        key
    } else {
        cf + ":"@ + key
    }
}

/// What a migration writes for `entries` (the hot, warm and cold tiers one
/// after the other): a Redis key and the value of each entry whose key
/// starts with `prefix`, or of every entry when no prefix is given, in
/// order.
pub open spec fn migration_rows(entries: Seq<TierEntry>, prefix: Option<Seq<char>>) -> Seq<
    (Seq<char>, Seq<char>),
>
    decreases entries.len(),
{
    if entries.len() == 0 {
        Seq::empty()
    } else {
        let e = entries.last();
        let rest = migration_rows(entries.drop_last(), prefix);
        let keep = match prefix {
            Some(p) => has_text_prefix(e.key@, p),
            None => true,
        };
        if keep {
            rest.push((redis_key_for(e.cf@, e.key@), e.value@))
        } else {
            rest
        }
    }
}

/// Pairs of texts as character sequences.
pub open spec fn text_pairs(v: Seq<(String, String)>) -> Seq<(Seq<char>, Seq<char>)> {
    v.map_values(|p: (String, String)| (p.0@, p.1@))
}

/// The Redis writes of a migration of the tiers `hot`, `warm` and `cold`,
/// restricted to keys starting with `prefix` when one is given.
pub fn migration_writes(
    hot: &Vec<TierEntry>,
    warm: &Vec<TierEntry>,
    cold: &Vec<TierEntry>,
    prefix: Option<&str>,
) -> (r: Vec<(String, String)>)
    ensures
        text_pairs(r@) == migration_rows(
            hot@ + warm@ + cold@,
            match prefix {
                Some(p) => Some(p@),
                None => None,
            },
        ),
{
    let ghost pre = match prefix {
        Some(p) => Some(p@),
        None => None,
    };
    proof {
        reveal_strlit("default");
        reveal_strlit(":");
    }
    let mut out: Vec<(String, String)> = Vec::new();
    let ghost mut seen: Seq<TierEntry> = Seq::empty();
    let mut tier: usize = 0;
    while tier < 3
        invariant
            0 <= tier <= 3,
            seen == if tier == 0 {
                Seq::<TierEntry>::empty()
            } else if tier == 1 {
                hot@
            } else if tier == 2 {
                hot@ + warm@
            } else {
                hot@ + warm@ + cold@
            },
            pre == match prefix {
                Some(p) => Some(p@),
                None => None::<Seq<char>>,
            },
            text_pairs(out@) == migration_rows(seen, pre),
        decreases 3 - tier,
    {
        let entries = if tier == 0 {
            hot
        } else if tier == 1 {
            warm
        } else {
            cold
        };
        let ghost start = seen;
        let mut i: usize = 0;
        while i < entries.len()
            invariant
                0 <= i <= entries@.len(),
                seen == start + entries@.take(i as int),
                pre == match prefix {
                    Some(p) => Some(p@),
                    None => None::<Seq<char>>,
                },
                text_pairs(out@) == migration_rows(seen, pre),
            decreases entries@.len() - i,
        {
            let e = &entries[i];
            proof {
                assert((start + entries@.take(i + 1)).drop_last() =~= start + entries@.take(i as int));
                assert((start + entries@.take(i + 1)).last() == entries@[i as int]);
            }
            let keep = match prefix {
                Some(p) => starts_with(e.key.as_str(), p),
                None => true,
            };
            if keep {
                let key = if same_text(e.cf.as_str(), "default") {
                    e.key.clone()
                } else {
                    let mut k = joined(e.cf.as_str(), ":");
                    k.append(e.key.as_str());
                    k
                };
                let ghost before = out@;
                out.push((key, e.value.clone()));
                proof {
                    assert(text_pairs(out@) =~= text_pairs(before).push(
                        (redis_key_for(e.cf@, e.key@), e.value@),
                    ));
                }
            }
            proof {
                seen = start + entries@.take(i + 1);
            }
            i += 1;
        }
        proof {
            assert(entries@.take(i as int) =~= entries@);
        }
        tier += 1;
    }
    out
}

/// How far a migration to Redis has got: entries to write, written and
/// failed; the status (empty before the first run, then `running`,
/// `completed` or `error`) and the error that stopped it.
#[derive(Debug)]
pub struct MigrationProgress {
    pub total: u64,
    pub migrated: u64,
    pub failed: u64,
    pub status: String,
    pub error: Option<String>,
}

impl MigrationProgress {
    /// No migration has run yet.
    pub fn new() -> (r: Self)
        ensures
            r.total == 0,
            r.migrated == 0,
            r.failed == 0,
            r.status@ == Seq::<char>::empty(),
            r.error is None,
    {
        MigrationProgress { total: 0, migrated: 0, failed: 0, status: String::new(), error: None }
    }

    /// Starts a migration unless one is running; tells whether it started.
    /// A started migration has its counters cleared and its error dropped.
    pub fn begin(&mut self) -> (r: bool)
        ensures
            r == (old(self).status@ != "running"@),
            !r ==> *final(self) == *old(self),
            r ==> final(self).total == 0 && final(self).migrated == 0 && final(self).failed == 0
                && final(self).status@ == "running"@ && final(self).error is None,
    {
        if same_text(self.status.as_str(), "running") {
            return false;
        }
        self.total = 0;
        self.migrated = 0;
        self.failed = 0;
        self.status = text("running");
        self.error = None;
        true
    }

    /// Counts one written entry, or one that failed.
    pub fn count(&mut self, ok: bool)
        requires
            ok ==> old(self).migrated < u64::MAX,
            !ok ==> old(self).failed < u64::MAX,
        ensures
            final(self).migrated == bump(old(self).migrated, ok),
            final(self).failed == bump(old(self).failed, !ok),
            final(self).total == old(self).total,
            final(self).status == old(self).status,
            final(self).error == old(self).error,
    {
        if ok {
            self.migrated = self.migrated + 1;
        } else {
            self.failed = self.failed + 1;
        }
    }

    /// Ends the migration: `completed`, or `error` with the error that
    /// stopped it.
    pub fn finish(&mut self, outcome: Result<(), String>)
        ensures
            final(self).total == old(self).total,
            final(self).migrated == old(self).migrated,
            final(self).failed == old(self).failed,
            outcome is Ok ==> final(self).status@ == "completed"@ && final(self).error == old(self).error,
            outcome matches Err(e) ==> final(self).status@ == "error"@ && final(self).error
                == Some(e),
    {
        match outcome {
            Ok(()) => {
                self.status = text("completed");
            },
            Err(e) => {
                self.status = text("error");
                self.error = Some(e);
            },
        }
    }
}

/// The message answering a request to start a migration that `started` or
/// was refused because one is running.
pub fn migration_message(started: bool) -> (r: String)
    ensures
        started ==> r@ == "迁移任务已启动"@,
        !started ==> r@ == "迁移任务已在运行中"@,
{
    if started {
        text("迁移任务已启动")
    } else {
        text("迁移任务已在运行中")
    }
}

} // verus!
