//! The networked reference backend of the key/value store contract. Every
//! ordinary operation goes through one shared connection serialized by a
//! lock held per command; compare-and-swap sessions each get a dedicated
//! connection, because the backend's watch primitive is scoped to a
//! connection and must not be observed or disturbed by unrelated traffic.
//!
//! The backend's own behaviour (the `redis` crate and the server) is not
//! verified: each command sits behind a trusted wrapper, and the verified
//! code here carries the protocol — connection sharing, watch lifetime, and
//! the mapping of aborted transactions to the retriable conflict error.

use vstd::prelude::*;

use crate::store::{Error, SwapError};

use std::sync::Arc;
use std::sync::Mutex;

verus! {

#[verifier::external_type_specification]
#[verifier::external_body]
#[verifier::reject_recursive_types(T)]
pub struct ExMutex<T: ?Sized>(Mutex<T>);

#[verifier::external_type_specification]
#[verifier::external_body]
pub struct ExConnection(redis::Connection);

#[verifier::external_type_specification]
#[verifier::external_body]
pub struct ExRedisError(redis::RedisError);

/// Whether `redis::parse_redis_url` accepts the given text as a store
/// address.
pub uninterp spec fn redis_url_ok(s: Seq<char>) -> bool;

/// The display form of the connection address that the given store address
/// parses to, if it parses at all.
pub uninterp spec fn redis_addr(s: Seq<char>) -> Option<Seq<char>>;

/// Relies on redis::parse_redis_url: acceptance depends on the address text
/// alone.
#[verifier::external_body]
fn redis_url_valid(address: &str) -> (r: bool)
    ensures
        r == redis_url_ok(address@),
{
    redis::parse_redis_url(address).is_some()
}

/// Relies on `str::parse::<redis::ConnectionInfo>` and the display form of
/// the parsed address: both depend on the address text alone.
#[verifier::external_body]
fn connection_addr(address: &str) -> (r: Option<String>)
    ensures
        match r {
            Some(a) => redis_addr(address@) == Some(a@),
            None => redis_addr(address@) is None,
        },
{
    let info: redis::ConnectionInfo = address.parse().ok()?;
    Some(format!("{}", info.addr()))
}

/// Relies on redis::Client::open and Client::get_connection to establish a
/// connection to the store at the given address.
#[verifier::external_body]
fn connect(address: &str) -> Result<Arc<Mutex<redis::Connection>>, redis::RedisError> {
    let client = redis::Client::open(address)?;
    let conn = client.get_connection()?;
    Ok(Arc::new(Mutex::new(conn)))
}

/// Relies on std::sync::Mutex for the compute-once guarantee: racing
/// callers serialize on the cell's lock, so at most one of them establishes
/// the connection and every later caller receives the same handle. A failed
/// attempt leaves the cell empty, so a later call may retry.
#[verifier::external_body]
fn get_or_connect(
    cell: &Mutex<Option<Arc<Mutex<redis::Connection>>>>,
    address: &str,
) -> Result<Arc<Mutex<redis::Connection>>, redis::RedisError> {
    let mut slot = match cell.lock() {
        Ok(g) => g,
        Err(p) => p.into_inner(),
    };
    match &*slot {
        Some(conn) => Ok(conn.clone()),
        None => {
            let conn = connect(address)?;
            *slot = Some(conn.clone());
            Ok(conn)
        },
    }
}

/// Relies on std::sync::Mutex::new to make the empty connection cell.
#[verifier::external_body]
fn new_connection_cell() -> Mutex<Option<Arc<Mutex<redis::Connection>>>> {
    Mutex::new(None)
}

/// Relies on redis GET: returns the key's value, `None` when absent.
#[verifier::external_body]
fn kv_get(
    conn: &Arc<Mutex<redis::Connection>>,
    key: &str,
) -> Result<Option<Vec<u8>>, redis::RedisError> {
    let mut guard = match conn.lock() {
        Ok(g) => g,
        Err(p) => p.into_inner(),
    };
    redis::Commands::get(&mut *guard, key)
}

/// Relies on redis SET: upserts the key to the value.
#[verifier::external_body]
fn kv_set(
    conn: &Arc<Mutex<redis::Connection>>,
    key: &str,
    value: &[u8],
) -> Result<(), redis::RedisError> {
    let mut guard = match conn.lock() {
        Ok(g) => g,
        Err(p) => p.into_inner(),
    };
    redis::Commands::set(&mut *guard, key, value)
}

/// Relies on redis DEL with one key.
#[verifier::external_body]
fn kv_del(conn: &Arc<Mutex<redis::Connection>>, key: &str) -> Result<(), redis::RedisError> {
    let mut guard = match conn.lock() {
        Ok(g) => g,
        Err(p) => p.into_inner(),
    };
    redis::Commands::del(&mut *guard, key)
}

/// Relies on redis EXISTS with one key.
#[verifier::external_body]
fn kv_exists(conn: &Arc<Mutex<redis::Connection>>, key: &str) -> Result<bool, redis::RedisError> {
    let mut guard = match conn.lock() {
        Ok(g) => g,
        Err(p) => p.into_inner(),
    };
    redis::Commands::exists(&mut *guard, key)
}

/// Relies on redis KEYS with the all-keys pattern.
#[verifier::external_body]
fn kv_keys_all(conn: &Arc<Mutex<redis::Connection>>) -> Result<Vec<String>, redis::RedisError> {
    let mut guard = match conn.lock() {
        Ok(g) => g,
        Err(p) => p.into_inner(),
    };
    redis::Commands::keys(&mut *guard, "*")
}

/// Relies on redis MGET: one reply per requested key, in request order,
/// `None` for keys that are absent or hold no string value.
#[verifier::external_body]
fn kv_mget(
    conn: &Arc<Mutex<redis::Connection>>,
    keys: &Vec<String>,
) -> (r: Result<Vec<Option<Vec<u8>>>, redis::RedisError>)
    ensures
        keys@.len() > 0 ==> (r matches Ok(values) ==> values@.len() == keys@.len()),
{
    let mut guard = match conn.lock() {
        Ok(g) => g,
        Err(p) => p.into_inner(),
    };
    redis::Commands::mget(&mut *guard, keys.as_slice())
}

/// Relies on redis MSET: upserts every pair.
#[verifier::external_body]
fn kv_mset(
    conn: &Arc<Mutex<redis::Connection>>,
    pairs: &Vec<(String, Vec<u8>)>,
) -> Result<(), redis::RedisError> {
    let mut guard = match conn.lock() {
        Ok(g) => g,
        Err(p) => p.into_inner(),
    };
    redis::Commands::mset(&mut *guard, pairs.as_slice())
}

/// Relies on redis DEL with a list of keys.
#[verifier::external_body]
fn kv_del_many(
    conn: &Arc<Mutex<redis::Connection>>,
    keys: &Vec<String>,
) -> Result<(), redis::RedisError> {
    let mut guard = match conn.lock() {
        Ok(g) => g,
        Err(p) => p.into_inner(),
    };
    redis::Commands::del(&mut *guard, keys.as_slice())
}

/// Relies on redis INCRBY: adds the delta to the integer stored under the
/// key, creating it at zero when absent, and returns the resulting value.
#[verifier::external_body]
fn kv_incr(
    conn: &Arc<Mutex<redis::Connection>>,
    key: &str,
    delta: i64,
) -> Result<i64, redis::RedisError> {
    let mut guard = match conn.lock() {
        Ok(g) => g,
        Err(p) => p.into_inner(),
    };
    redis::Commands::incr(&mut *guard, key, delta)
}

/// Relies on redis WATCH: marks the key on this connection so a following
/// transaction aborts if the key changes.
#[verifier::external_body]
fn watch_key(conn: &Arc<Mutex<redis::Connection>>, key: &str) -> Result<(), redis::RedisError> {
    let mut guard = match conn.lock() {
        Ok(g) => g,
        Err(p) => p.into_inner(),
    };
    redis::cmd("WATCH").arg(key).exec(&mut *guard)
}

/// Relies on redis UNWATCH: releases every watch held by this connection.
#[verifier::external_body]
fn unwatch(conn: &Arc<Mutex<redis::Connection>>) -> Result<(), redis::RedisError> {
    let mut guard = match conn.lock() {
        Ok(g) => g,
        Err(p) => p.into_inner(),
    };
    redis::cmd("UNWATCH").exec(&mut *guard)
}

/// Relies on an atomic redis pipeline (MULTI / SET / EXEC): returns whether
/// the transaction committed; a nil reply means it was discarded because a
/// watched key changed.
#[verifier::external_body]
fn txn_set(
    conn: &Arc<Mutex<redis::Connection>>,
    key: &str,
    value: &[u8],
) -> Result<bool, redis::RedisError> {
    let mut guard = match conn.lock() {
        Ok(g) => g,
        Err(p) => p.into_inner(),
    };
    let reply: Option<()> = redis::pipe().atomic().set(key, value).ignore().query(&mut *guard)?;
    Ok(reply.is_some())
}

/// Relies on the debug form of redis::RedisError for the diagnostic text of
/// a failed swap.
#[verifier::external_body]
fn describe_redis_error(err: &redis::RedisError) -> String {
    format!("{err:?}")
}

/// Pairs each requested key with the backend's reply at the same position:
/// what a bulk read hands back is exactly the in-order reply, keyed by the
/// request.
pub fn pair_replies(keys: &Vec<String>, values: Vec<Option<Vec<u8>>>) -> (out: Vec<
    (String, Option<Vec<u8>>),
>)
    requires
        values@.len() == keys@.len(),
    ensures
        out@.len() == keys@.len(),
        forall|i: int| 0 <= i < keys@.len() ==> #[trigger] out@[i] == (keys@[i], values@[i]),
{
    let ghost vs = values@;
    let mut rest = values;
    let mut out: Vec<(String, Option<Vec<u8>>)> = Vec::new();
    let mut i: usize = 0;
    while i < keys.len()
        invariant
            i <= keys@.len(),
            vs.len() == keys@.len(),
            out@.len() == i,
            rest@ == vs.skip(i as int),
            forall|j: int| 0 <= j < i ==> #[trigger] out@[j] == (keys@[j], vs[j]),
        decreases keys@.len() - i,
    {
        let v = rest.remove(0);
        proof {
            assert(v == vs[i as int]);
        }
        out.push((keys[i].clone(), v));
        proof {
            assert(rest@ =~= vs.skip(i + 1));
        }
        i = i + 1;
    }
    out
}

/// Maps a compare-and-swap transaction's result to the session's visible
/// outcome: a committed transaction is the one success; a discarded
/// transaction as well as a transport fault during it is the retriable
/// `CasFailed`.
pub fn swap_outcome(committed: Result<bool, redis::RedisError>) -> (r: Result<(), SwapError>)
    ensures
        r is Ok <==> (committed matches Ok(true)),
        r matches Err(e) ==> e matches SwapError::CasFailed(_),
{
    match committed {
        Ok(true) => Ok(()),
        Ok(false) => Err(
            SwapError::CasFailed(
                String::from_str("the transaction was discarded: the watched key changed"),
            ),
        ),
        Err(e) => Err(SwapError::CasFailed(describe_redis_error(&e))),
    }
}

/// A manager for stores backed by one networked key/value server. The
/// shared connection is established lazily, at most once, and handed to
/// every store handle the manager opens.
pub struct KeyValueRedis {
    address: String,
    connection: Mutex<Option<Arc<Mutex<redis::Connection>>>>,
}

impl KeyValueRedis {
    /// The store address the manager was configured with.
    pub closed spec fn spec_address(&self) -> Seq<char> {
        self.address@
    }

    /// Creates a manager for the store at `address`; rejects an address
    /// that is not a valid store URL.
    pub fn new(address: String) -> (r: Result<Self, String>)
        ensures
            redis_url_ok(address@) ==> (r matches Ok(m) && m.spec_address() == address@),
            !redis_url_ok(address@) ==> (r matches Err(e) && e@ == "Invalid Redis URL"@),
    {
        if redis_url_valid(address.as_str()) {
            Ok(KeyValueRedis { address, connection: new_connection_cell() })
        } else {
            Err(String::from_str("Invalid Redis URL"))
        }
    }

    /// Opens a handle to the named store. The backend connection is
    /// established on the first call and shared by every handle; a failure
    /// to connect is reported as the redacted runtime error.
    pub fn get(&self, _name: &str) -> (r: Result<RedisStore, Error>)
        ensures
            r matches Ok(s) ==> s.spec_address() == self.spec_address(),
            r matches Err(e) ==> e == Error::Runtime,
    {
        match get_or_connect(&self.connection, self.address.as_str()) {
            Ok(conn) => Ok(
                RedisStore { connection: conn, address: self.address.clone() },
            ),
            Err(_) => Err(Error::Runtime),
        }
    }

    /// Every name is defined on this backend: the server holds one shared
    /// namespace.
    pub fn is_defined(&self, _store_name: &str) -> (r: bool)
        ensures
            r,
    {
        true
    }

    /// A one-line, secret-free description of the configured store, for
    /// operator-facing startup logs.
    pub fn summary(&self, _store_name: &str) -> (r: Option<String>)
        ensures
            match redis_addr(self.spec_address()) {
                Some(a) => r matches Some(s) && s@ == "Redis at "@ + a,
                None => r is None,
            },
    {
        match connection_addr(self.address.as_str()) {
            Some(a) => Some(String::from_str("Redis at ").concat(a.as_str())),
            None => None,
        }
    }
}

/// A handle to a store on the networked backend. All its ordinary
/// operations go through the manager's shared connection; the lock inside
/// each command keeps one logical command in flight at a time.
pub struct RedisStore {
    connection: Arc<Mutex<redis::Connection>>,
    address: String,
}

impl RedisStore {
    /// The address of the backing store.
    pub closed spec fn spec_address(&self) -> Seq<char> {
        self.address@
    }

    /// Reads the value of `key`. Backend faults surface as the redacted
    /// runtime error.
    pub fn get(&self, key: &str) -> (r: Result<Option<Vec<u8>>, Error>)
        ensures
            r matches Err(e) ==> e == Error::Runtime,
    {
        match kv_get(&self.connection, key) {
            Ok(v) => Ok(v),
            Err(_) => Err(Error::Runtime),
        }
    }

    /// Upserts `key` to `value`.
    pub fn set(&self, key: &str, value: &[u8]) -> (r: Result<(), Error>)
        ensures
            r matches Err(e) ==> e == Error::Runtime,
    {
        match kv_set(&self.connection, key, value) {
            Ok(_) => Ok(()),
            Err(_) => Err(Error::Runtime),
        }
    }

    /// Deletes `key`.
    pub fn delete(&self, key: &str) -> (r: Result<(), Error>)
        ensures
            r matches Err(e) ==> e == Error::Runtime,
    {
        match kv_del(&self.connection, key) {
            Ok(_) => Ok(()),
            Err(_) => Err(Error::Runtime),
        }
    }

    /// Tests whether `key` is present.
    pub fn key_exists(&self, key: &str) -> (r: Result<bool, Error>)
        ensures
            r matches Err(e) ==> e == Error::Runtime,
    {
        match kv_exists(&self.connection, key) {
            Ok(b) => Ok(b),
            Err(_) => Err(Error::Runtime),
        }
    }

    /// Lists every key of the store. Unscoped and possibly large; paging is
    /// the caller's concern.
    pub fn get_keys(&self) -> (r: Result<Vec<String>, Error>)
        ensures
            r matches Err(e) ==> e == Error::Runtime,
    {
        match kv_keys_all(&self.connection) {
            Ok(keys) => Ok(keys),
            Err(_) => Err(Error::Runtime),
        }
    }

    /// Reads many keys at once: one `(key, optional value)` pair per
    /// requested key, in request order, paired from the backend's in-order
    /// reply by `pair_replies`.
    pub fn get_many(&self, keys: Vec<String>) -> (r: Result<
        Vec<(String, Option<Vec<u8>>)>,
        Error,
    >)
        ensures
            keys@.len() == 0 ==> (r matches Ok(out) && out@.len() == 0),
            r matches Ok(out) ==> out@.len() == keys@.len() && forall|i: int|
                0 <= i < keys@.len() ==> (#[trigger] out@[i]).0@ == keys@[i]@,
            r matches Err(e) ==> e == Error::Runtime,
    {
        if keys.len() == 0 {
            return Ok(Vec::new());
        }
        let values = match kv_mget(&self.connection, &keys) {
            Ok(values) => values,
            Err(_) => {
                return Err(Error::Runtime);
            },
        };
        if values.len() != keys.len() {
            return Err(Error::Runtime);
        }
        Ok(pair_replies(&keys, values))
    }

    /// Upserts every pair of the list.
    pub fn set_many(&self, key_values: Vec<(String, Vec<u8>)>) -> (r: Result<(), Error>)
        ensures
            r matches Err(e) ==> e == Error::Runtime,
    {
        match kv_mset(&self.connection, &key_values) {
            Ok(_) => Ok(()),
            Err(_) => Err(Error::Runtime),
        }
    }

    /// Deletes every key of the list; an empty list needs no backend call.
    pub fn delete_many(&self, keys: Vec<String>) -> (r: Result<(), Error>)
        ensures
            keys@.len() == 0 ==> r is Ok,
            r matches Err(e) ==> e == Error::Runtime,
    {
        if keys.len() == 0 {
            return Ok(());
        }
        match kv_del_many(&self.connection, &keys) {
            Ok(_) => Ok(()),
            Err(_) => Err(Error::Runtime),
        }
    }

    /// Adds `delta` to the integer stored under `key`, creating the key at
    /// zero when absent, and returns the resulting value.
    pub fn increment(&self, key: &str, delta: i64) -> (r: Result<i64, Error>)
        ensures
            r matches Err(e) ==> e == Error::Runtime,
    {
        match kv_incr(&self.connection, key, delta) {
            Ok(v) => Ok(v),
            Err(_) => Err(Error::Runtime),
        }
    }

    /// Opens a compare-and-swap session bound to one key, on a brand-new
    /// dedicated connection: the backend scopes its watch primitive to a
    /// connection, and sharing one would let unrelated traffic join or
    /// disturb the watch window.
    pub fn new_compare_and_swap(&self, bucket_rep: u32, key: &str) -> (r: Result<
        CompareAndSwap,
        Error,
    >)
        ensures
            r matches Ok(c) ==> c.spec_key() == key@ && c.spec_bucket() == bucket_rep,
            r matches Err(e) ==> e == Error::Runtime,
    {
        match connect(self.address.as_str()) {
            Ok(conn) => Ok(
                CompareAndSwap { key: String::from_str(key), connection: conn, bucket_rep },
            ),
            Err(_) => Err(Error::Runtime),
        }
    }
}

/// A compare-and-swap session on the networked backend: bound to one key,
/// holding its own dedicated connection, created fresh per attempt. The
/// connection is owned by the session and closed when the session is
/// dropped — never handed to a pool — so an abandoned watch cannot leak
/// into unrelated traffic.
pub struct CompareAndSwap {
    key: String,
    connection: Arc<Mutex<redis::Connection>>,
    bucket_rep: u32,
}

impl CompareAndSwap {
    /// The key the session is bound to.
    pub closed spec fn spec_key(&self) -> Seq<char> {
        self.key@
    }

    /// The caller's bucket tag.
    pub closed spec fn spec_bucket(&self) -> u32 {
        self.bucket_rep
    }

    /// Begins the watch on the session's key over the dedicated connection,
    /// then reads and returns the key's present value.
    pub fn current(&self) -> (r: Result<Option<Vec<u8>>, Error>)
        ensures
            r matches Err(e) ==> e == Error::Runtime,
    {
        match watch_key(&self.connection, self.key.as_str()) {
            Ok(_) => {},
            Err(_) => {
                return Err(Error::Runtime);
            },
        }
        match kv_get(&self.connection, self.key.as_str()) {
            Ok(v) => Ok(v),
            Err(_) => Err(Error::Runtime),
        }
    }

    /// Attempts the atomic "set if the watched key is unchanged"
    /// transaction, and releases the watch afterwards whatever the outcome.
    /// Every failure — an aborted transaction as well as any transport
    /// fault during the attempt — surfaces as the retriable `CasFailed`.
    pub fn swap(&self, value: &[u8]) -> (r: Result<(), SwapError>)
        ensures
            r matches Err(e) ==> e matches SwapError::CasFailed(_),
    {
        let committed = txn_set(&self.connection, self.key.as_str(), value);
        match unwatch(&self.connection) {
            Ok(_) => {},
            Err(e) => {
                return Err(SwapError::CasFailed(describe_redis_error(&e)));
            },
        }
        swap_outcome(committed)
    }

    /// The caller's bucket tag, for its own bookkeeping.
    pub fn bucket_rep(&self) -> (r: u32)
        ensures
            r == self.spec_bucket(),
    {
        self.bucket_rep
    }

    /// The key the session is bound to.
    pub fn key(&self) -> (r: String)
        ensures
            r@ == self.spec_key(),
    {
        self.key.clone()
    }
}

} // verus!
