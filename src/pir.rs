//! Private retrieval of one record of a database: the client shares the
//! indicator of the wanted index between two keys, each evaluator masks
//! every record with its key's share and XORs the masked records together,
//! and the two aggregates XOR to the wanted record.
//!
//! A request carries one key. The client retains the index and the partner
//! key under the request's handle, and releases the partner key only as a
//! separate request for a second evaluator; the index stays hidden from each
//! evaluator as long as no evaluator sees both requests of a query.
use vstd::prelude::*;
use crate::dpf::{complementary, gen_spec, generate_keys, levels_count, point, same_key, xor_bytes, zero_bytes, DpfKey};
use crate::entropy::fresh_seed_pair;
use crate::error::Error;

verus! {

/// A fixed number of records of a fixed length, all zero until set.
pub struct Database {
    num_elements: i32,
    element_size: i32,
    records: Vec<Vec<u8>>,
}

impl Database {
    pub closed spec fn num_elements_spec(&self) -> int {
        self.num_elements as int
    }

    pub closed spec fn element_size_spec(&self) -> int {
        self.element_size as int
    }

    /// The records, in index order.
    pub closed spec fn records_spec(&self) -> Seq<Seq<u8>> {
        Seq::new(self.records@.len(), |i: int| self.records@[i]@)
    }

    pub open spec fn wf(&self) -> bool {
        &&& self.num_elements_spec() >= 1
        &&& self.element_size_spec() >= 1
        &&& self.records_spec().len() == self.num_elements_spec()
        &&& forall|i: int|
            0 <= i < self.records_spec().len() ==> (#[trigger] self.records_spec()[i]).len()
                == self.element_size_spec()
    }

    /// Creates a database of `num_elements` records of `element_size_bytes`
    /// zero bytes each. Fails with `InvalidArgument` exactly when either
    /// argument is not positive.
    pub fn new(num_elements: i32, element_size_bytes: i32) -> (r: Result<Database, Error>)
        ensures
            r is Err <==> (num_elements <= 0 || element_size_bytes <= 0),
            r is Err ==> r == Err::<Database, Error>(Error::InvalidArgument),
            r matches Ok(db) ==> {
                &&& db.wf()
                &&& db.num_elements_spec() == num_elements
                &&& db.element_size_spec() == element_size_bytes
                &&& forall|i: int|
                    0 <= i < num_elements ==> #[trigger] db.records_spec()[i] == zero_bytes(
                        element_size_bytes as nat,
                    )
            },
    {
        if num_elements <= 0 || element_size_bytes <= 0 {
            return Err(Error::InvalidArgument);
        }
        let n = num_elements as usize;
        let b = element_size_bytes as usize;
        let mut records: Vec<Vec<u8>> = Vec::with_capacity(n);
        let mut i: usize = 0;
        while i < n
            invariant
                i <= n,
                records@.len() == i,
                forall|k: int| 0 <= k < i ==> (#[trigger] records@[k])@ == zero_bytes(b as nat),
            decreases n - i,
        {
            records.push(zeros(b));
            i = i + 1;
        }
        let db = Database { num_elements, element_size: element_size_bytes, records };
        Ok(db)
    }

    /// Replaces record `index` by `data`. Fails with `InvalidArgument`, and
    /// changes nothing, exactly when `index` is out of range or `data` is not
    /// one record long.
    pub fn set_element(&mut self, index: i32, data: &[u8]) -> (r: Result<(), Error>)
        requires
            old(self).wf(),
        ensures
            final(self).wf(),
            final(self).num_elements_spec() == old(self).num_elements_spec(),
            final(self).element_size_spec() == old(self).element_size_spec(),
            r is Err <==> (index < 0 || index >= old(self).num_elements_spec() || data@.len()
                != old(self).element_size_spec()),
            r is Err ==> r == Err::<(), Error>(Error::InvalidArgument) && final(self).records_spec()
                == old(self).records_spec(),
            r is Ok ==> final(self).records_spec() == old(self).records_spec().update(
                index as int,
                data@,
            ),
    {
        if index < 0 || index >= self.num_elements || data.len() != self.element_size as usize {
            return Err(Error::InvalidArgument);
        }
        let copy = copy_bytes(data);
        self.records.set(index as usize, copy);
        assert(self.records_spec() =~= old(self).records_spec().update(index as int, data@));
        Ok(())
    }
}

fn zeros(len: usize) -> (v: Vec<u8>)
    ensures
        v@ == zero_bytes(len as nat),
{
    let mut v: Vec<u8> = Vec::with_capacity(len);
    let mut i: usize = 0;
    while i < len
        invariant
            i <= len,
            v@ =~= zero_bytes(i as nat),
        decreases len - i,
    {
        v.push(0u8);
        i = i + 1;
    }
    v
}

fn copy_bytes(data: &[u8]) -> (v: Vec<u8>)
    ensures
        v@ == data@,
{
    let mut v: Vec<u8> = Vec::with_capacity(data.len());
    let mut i: usize = 0;
    while i < data.len()
        invariant
            i <= data@.len(),
            v@ =~= data@.subrange(0, i as int),
        decreases data@.len() - i,
    {
        v.push(data[i]);
        i = i + 1;
    }
    assert(v@ =~= data@);
    v
}

/// Byte `j` of the XOR, over the first `n` records, of each record masked
/// with the key's share at its index.
pub open spec fn masked_xor(key: DpfKey, recs: Seq<Seq<u8>>, j: int, n: nat) -> u8
    decreases n,
{
    if n == 0 {
        0u8
    } else {
        let x = (n - 1) as nat;
        masked_xor(key, recs, j, x) ^ (key.eval_spec(x)[j] & recs[x as int][j])
    }
}

/// An evaluator's answer: the XOR over all records of each record masked
/// with the key's share at its index, `len` bytes long.
pub open spec fn aggregate(key: DpfKey, recs: Seq<Seq<u8>>, len: nat) -> Seq<u8> {
    Seq::new(len, |j: int| masked_xor(key, recs, j, recs.len()))
}

/// The selection mask that a request shares: all bits set.
pub open spec fn select_mask(len: nat) -> Seq<u8> {
    Seq::new(len, |i: int| 0xffu8)
}

proof fn lemma_masked_xor(k0: DpfKey, k1: DpfKey, alpha: nat, recs: Seq<Seq<u8>>, b: nat, j: int, n: nat)
    requires
        complementary(k0, k1, alpha, select_mask(b)),
        recs.len() == k0.domain_size,
        forall|i: int| 0 <= i < recs.len() ==> (#[trigger] recs[i]).len() == b,
        0 <= j < b,
        n <= recs.len(),
    ensures
        masked_xor(k1, recs, j, n) ^ masked_xor(k0, recs, j, n) == (if alpha < n {
            recs[alpha as int][j]
        } else {
            0u8
        }),
    decreases n,
{
    if n > 0 {
        let x = (n - 1) as nat;
        lemma_masked_xor(k0, k1, alpha, recs, b, j, x);
        let a = masked_xor(k1, recs, j, x);
        let c = masked_xor(k0, recs, j, x);
        let e0 = k0.eval_spec(x)[j];
        let e1 = k1.eval_spec(x)[j];
        let d = recs[x as int][j];
        let pt = xor_bytes(k0.eval_spec(x), k1.eval_spec(x));
        assert(pt == point(alpha, select_mask(b), x));
        assert(pt[j] == e0 ^ e1);
        let m = e0 ^ e1;
        assert(masked_xor(k1, recs, j, n) == a ^ (e1 & d));
        assert(masked_xor(k0, recs, j, n) == c ^ (e0 & d));
        assert((a ^ (e1 & d)) ^ (c ^ (e0 & d)) == (a ^ c) ^ ((e0 ^ e1) & d)) by (bit_vector);
        assert(masked_xor(k1, recs, j, n) ^ masked_xor(k0, recs, j, n) == (a ^ c) ^ (m & d));
        if x == alpha {
            assert(m == 0xffu8);
            assert(a ^ c == 0u8);
            assert(0u8 ^ (m & d) == d) by (bit_vector)
                requires m == 0xffu8;
        } else {
            assert(m == 0u8);
            let v = a ^ c;
            assert(v ^ (m & d) == v) by (bit_vector)
                requires m == 0u8;
        }
    } else {
        assert(0u8 ^ 0u8 == 0u8) by (bit_vector);
    }
}

/// Retrieval law: when the two keys share the selection mask at `alpha`
/// over a domain as large as the database, the XOR of the two evaluators'
/// answers is record `alpha`, whatever the records hold.
pub proof fn lemma_retrieval(k0: DpfKey, k1: DpfKey, alpha: nat, recs: Seq<Seq<u8>>, b: nat)
    requires
        complementary(k0, k1, alpha, select_mask(b)),
        recs.len() == k0.domain_size,
        forall|i: int| 0 <= i < recs.len() ==> (#[trigger] recs[i]).len() == b,
    ensures
        xor_bytes(aggregate(k1, recs, b), aggregate(k0, recs, b)) == recs[alpha as int],
{
    let r = xor_bytes(aggregate(k1, recs, b), aggregate(k0, recs, b));
    assert forall|j: int| 0 <= j < b implies #[trigger] r[j] == recs[alpha as int][j] by {
        lemma_masked_xor(k0, k1, alpha, recs, b, j, recs.len());
    }
    assert(r =~= recs[alpha as int]);
}

impl Database {
    /// The answer of an evaluator holding `key`: every record masked with the
    /// key's share at its index, all XORed together.
    pub fn answer(&self, key: &DpfKey) -> (r: Vec<u8>)
        requires
            self.wf(),
            key.wf(),
            key.domain_size == self.num_elements_spec(),
            key.output_len() == self.element_size_spec(),
        ensures
            r@ == aggregate(*key, self.records_spec(), self.element_size_spec() as nat),
    {
        let n = self.num_elements as usize;
        let b = self.element_size as usize;
        let ghost recs = self.records_spec();
        let mut acc = zeros(b);
        let mut x: usize = 0;
        while x < n
            invariant
                self.wf(),
                key.wf(),
                key.domain_size == n,
                key.output_len() == b,
                n == self.num_elements_spec(),
                b == self.element_size_spec(),
                recs == self.records_spec(),
                x <= n,
                acc@.len() == b,
                forall|k: int| 0 <= k < b ==> #[trigger] acc@[k] == masked_xor(*key, recs, k, x as nat),
            decreases n - x,
        {
            let mask = match key.evaluate(x as u64) {
                Ok(m) => m,
                Err(_) => {
                    assert(false);
                    return acc;
                },
            };
            let rec = &self.records[x];
            assert(rec@ == recs[x as int]);
            let mut j: usize = 0;
            while j < b
                invariant
                    j <= b,
                    acc@.len() == b,
                    mask@ == key.eval_spec(x as nat),
                    mask@.len() == b,
                    rec@ == recs[x as int],
                    rec@.len() == b,
                    forall|k: int| 0 <= k < j ==> #[trigger] acc@[k] == masked_xor(*key, recs, k, (x + 1) as nat),
                    forall|k: int| j <= k < b ==> #[trigger] acc@[k] == masked_xor(*key, recs, k, x as nat),
                decreases b - j,
            {
                let v = acc[j] ^ (mask[j] & rec[j]);
                acc.set(j, v);
                j = j + 1;
            }
            x = x + 1;
        }
        assert(acc@ =~= aggregate(*key, recs, b as nat));
        acc
    }
}

/// A query sent to one evaluator: one key and the database shape that it
/// was made for.
pub struct Request {
    /// Handle under which the client retains the query.
    pub id: u64,
    /// Whether the key is the partner key, released for a second evaluator.
    pub partner: bool,
    pub num_elements: i32,
    pub element_size: i32,
    pub key: DpfKey,
}

/// An evaluator's reply: its aggregate and the echoed request data.
pub struct Response {
    /// Handle of the request answered.
    pub id: u64,
    /// Whether the request answered carried the partner key.
    pub partner: bool,
    pub num_elements: i32,
    pub element_size: i32,
    /// The evaluator's aggregate over the database.
    pub share: Vec<u8>,
}

/// Whether a key can be evaluated over every index of a database of `n`
/// records of `b` bytes.
pub open spec fn key_fits(key: DpfKey, n: int, b: int) -> bool {
    key.wf() && key.domain_size == n && key.output_len() == b
}

/// Whether a request was made for a database of `n` records of `b` bytes.
pub open spec fn request_fits(req: Request, n: int, b: int) -> bool {
    req.num_elements == n && req.element_size == b && key_fits(req.key, n, b)
}

fn check_key(key: &DpfKey, n: i32, b: i32) -> (ok: bool)
    requires
        n >= 1,
        b >= 1,
    ensures
        ok == key_fits(*key, n as int, b as int),
{
    key.domain_size == n as u64 && key.output_correction.len() == b as usize
        && key.levels.len() as u64 == levels_count(key.domain_size)
}

/// An evaluator: answers requests against its own copy of a database.
pub struct Server {
    db: Database,
}

impl Server {
    pub closed spec fn database(&self) -> Database {
        self.db
    }

    pub open spec fn wf(&self) -> bool {
        self.database().wf()
    }

    /// A server over a copy of `db`; the database itself is left unchanged.
    pub fn new(db: &mut Database) -> (r: Result<Server, Error>)
        requires
            old(db).wf(),
        ensures
            *final(db) == *old(db),
            r matches Ok(s) && s.wf() && s.database().num_elements_spec() == old(db).num_elements_spec()
                && s.database().element_size_spec() == old(db).element_size_spec()
                && s.database().records_spec() == old(db).records_spec(),
    {
        let n = db.records.len();
        let mut records: Vec<Vec<u8>> = Vec::with_capacity(n);
        let mut i: usize = 0;
        while i < n
            invariant
                i <= n,
                n == db.records@.len(),
                records@.len() == i,
                forall|k: int| 0 <= k < i ==> (#[trigger] records@[k])@ == db.records@[k]@,
            decreases n - i,
        {
            records.push(copy_bytes(db.records[i].as_slice()));
            i = i + 1;
        }
        let copy = Database { num_elements: db.num_elements, element_size: db.element_size, records };
        assert(copy.records_spec() =~= db.records_spec());
        Ok(Server { db: copy })
    }

    /// Answers a request with the aggregate of its one key over the
    /// database. Fails with `InvalidArgument`, before any evaluation, exactly
    /// when the request was not made for this database's shape.
    pub fn process_request(&mut self, request: &Request) -> (r: Result<Response, Error>)
        requires
            old(self).wf(),
        ensures
            *final(self) == *old(self),
            ({
                let db = old(self).database();
                let n = db.num_elements_spec();
                let b = db.element_size_spec();
                &&& r is Err <==> !request_fits(*request, n, b)
                &&& r is Err ==> r == Err::<Response, Error>(Error::InvalidArgument)
                &&& r matches Ok(resp) ==> {
                    &&& resp.id == request.id && resp.partner == request.partner
                    &&& resp.num_elements == n && resp.element_size == b
                    &&& resp.share@ == aggregate(request.key, db.records_spec(), b as nat)
                }
            }),
    {
        let n = self.db.num_elements;
        let b = self.db.element_size;
        if request.num_elements != n || request.element_size != b || !check_key(&request.key, n, b) {
            return Err(Error::InvalidArgument);
        }
        let share = self.db.answer(&request.key);
        Ok(Response { id: request.id, partner: request.partner, num_elements: n, element_size: b, share })
    }
}

/// What a client keeps of a query until its result is taken: the index
/// asked for and the partner key.
pub struct Retained {
    pub id: u64,
    pub index: i32,
    pub key: DpfKey,
}

/// Issues requests and recovers records from two evaluators' responses.
/// Each query is retained under its handle until its result is taken, and
/// gives one result only.
pub struct Client {
    num_elements: i32,
    element_size: i32,
    next_id: u64,
    retained: Vec<Retained>,
}

/// Whether some entry of `r` is kept under handle `id`.
pub open spec fn retains(r: Seq<Retained>, id: u64) -> bool {
    exists|i: int| 0 <= i < r.len() && (#[trigger] r[i]).id == id
}

/// Whether the handles of `r` are distinct.
pub open spec fn distinct_ids(r: Seq<Retained>) -> bool {
    forall|i: int, j: int| 0 <= i < r.len() && 0 <= j < r.len() && i != j ==> (#[trigger] r[i]).id != (#[trigger] r[j]).id
}

/// Whether `resp` answers `req` and `partner_resp` answers the partner
/// request of the same query, all made for `n` records of `b` bytes.
pub open spec fn responses_match(req: Request, resp: Response, partner_resp: Response, n: int, b: int) -> bool {
    &&& !req.partner && req.num_elements == n && req.element_size == b
    &&& resp.id == req.id && !resp.partner
    &&& partner_resp.id == req.id && partner_resp.partner
    &&& resp.num_elements == n && resp.element_size == b
    &&& partner_resp.num_elements == n && partner_resp.element_size == b
    &&& resp.share@.len() == b && partner_resp.share@.len() == b
}

impl Client {
    pub closed spec fn num_elements_spec(&self) -> int {
        self.num_elements as int
    }

    pub closed spec fn element_size_spec(&self) -> int {
        self.element_size as int
    }

    /// Handle that the next request gets.
    pub closed spec fn next_id_spec(&self) -> u64 {
        self.next_id
    }

    /// The queries whose results have not been taken yet.
    pub closed spec fn retained_spec(&self) -> Seq<Retained> {
        self.retained@
    }

    pub open spec fn wf(&self) -> bool {
        &&& self.num_elements_spec() >= 1
        &&& self.element_size_spec() >= 1
        &&& distinct_ids(self.retained_spec())
        &&& forall|i: int|
            0 <= i < self.retained_spec().len() ==> (#[trigger] self.retained_spec()[i]).id < self.next_id_spec()
    }

    /// A client for a database of `num_elements` records of
    /// `element_size_bytes` bytes, with nothing retained and the first
    /// handle unused. Fails with `InvalidArgument` exactly when either
    /// argument is not positive.
    pub fn new(num_elements: i32, element_size_bytes: i32) -> (r: Result<Client, Error>)
        ensures
            r is Err <==> (num_elements <= 0 || element_size_bytes <= 0),
            r is Err ==> r == Err::<Client, Error>(Error::InvalidArgument),
            r matches Ok(c) ==> c.wf() && c.num_elements_spec() == num_elements
                && c.element_size_spec() == element_size_bytes && c.retained_spec().len() == 0
                && c.next_id_spec() == 0,
    {
        if num_elements <= 0 || element_size_bytes <= 0 {
            return Err(Error::InvalidArgument);
        }
        Ok(Client { num_elements, element_size: element_size_bytes, next_id: 0, retained: Vec::new() })
    }

    /// Makes the request for record `index` from the root seeds `s0` (the
    /// retained partner key's) and `s1` (the request key's), and retains the
    /// index and the partner key under the request's handle.
    ///
    /// Fails with `InvalidArgument` exactly when `index` is out of range, and
    /// with `OutOfMemory` when every handle has been used; a failure changes
    /// nothing.
    pub fn create_request_with_seeds(&mut self, index: i32, s0: u128, s1: u128) -> (r: Result<Request, Error>)
        requires
            old(self).wf(),
        ensures
            final(self).wf(),
            final(self).num_elements_spec() == old(self).num_elements_spec(),
            final(self).element_size_spec() == old(self).element_size_spec(),
            (index < 0 || index >= old(self).num_elements_spec()) ==> r == Err::<Request, Error>(
                Error::InvalidArgument,
            ),
            (0 <= index < old(self).num_elements_spec() && old(self).next_id_spec() == u64::MAX) ==> r
                == Err::<Request, Error>(Error::OutOfMemory),
            r is Err ==> *final(self) == *old(self),
            (0 <= index < old(self).num_elements_spec() && old(self).next_id_spec() < u64::MAX) ==> (
            r matches Ok(req) && {
                let n = old(self).num_elements_spec();
                let b = old(self).element_size_spec();
                let g = gen_spec(n as u64, index as nat, select_mask(b as nat), s0, s1);
                let kept = final(self).retained_spec().last();
                &&& req.id == old(self).next_id_spec() && !req.partner
                &&& !retains(old(self).retained_spec(), req.id)
                &&& request_fits(req, n, b)
                &&& req.key.seed == s1 && req.key.bit
                &&& req.key.levels@ == g.0 && req.key.output_correction@ == g.1
                &&& final(self).retained_spec().len() == old(self).retained_spec().len() + 1
                &&& final(self).retained_spec().drop_last() == old(self).retained_spec()
                &&& kept.id == req.id && kept.index == index
                &&& kept.key.seed == s0 && !kept.key.bit
                &&& kept.key.levels@ == g.0 && kept.key.output_correction@ == g.1
                &&& complementary(kept.key, req.key, index as nat, select_mask(b as nat))
                &&& final(self).next_id_spec() == old(self).next_id_spec() + 1
            }),
    {
        if index < 0 || index >= self.num_elements {
            return Err(Error::InvalidArgument);
        }
        if self.next_id == u64::MAX {
            return Err(Error::OutOfMemory);
        }
        let b = self.element_size as usize;
        let mask = ones(b);
        let keys = generate_keys(self.num_elements as u64, index as u64, &mask, b, s0, s1);
        let (partner_key, key) = match keys {
            Ok(pair) => pair,
            Err(e) => {
                assert(false);
                return Err(e);
            },
        };
        let id = self.next_id;
        let req = Request { id, partner: false, num_elements: self.num_elements, element_size: self.element_size, key };
        self.retained.push(Retained { id, index, key: partner_key });
        self.next_id = id + 1;
        proof {
            let old_r = old(self).retained@;
            let r = self.retained@;
            assert(r.drop_last() =~= old_r);
            assert forall|i: int| 0 <= i < old_r.len() implies (#[trigger] old_r[i]).id != id by {}
            assert forall|i: int, j: int| 0 <= i < r.len() && 0 <= j < r.len() && i != j implies (#[trigger] r[i]).id
                != (#[trigger] r[j]).id by {
                if i < old_r.len() && j < old_r.len() {
                    assert(r[i] == old_r[i] && r[j] == old_r[j]);
                } else if i < old_r.len() {
                    assert(r[i] == old_r[i]);
                } else {
                    assert(r[j] == old_r[j]);
                }
            }
            assert forall|i: int| 0 <= i < r.len() implies (#[trigger] r[i]).id < self.next_id by {
                if i < old_r.len() {
                    assert(r[i] == old_r[i]);
                }
            }
        }
        Ok(req)
    }

    /// Makes the request for record `index` from freshly drawn root seeds,
    /// and retains the index and the partner key under its handle.
    ///
    /// Fails with `InvalidArgument` exactly when `index` is out of range, and
    /// with `OutOfMemory` when every handle has been used; a failure changes
    /// nothing.
    pub fn create_request(&mut self, index: i32) -> (r: Result<Request, Error>)
        requires
            old(self).wf(),
        ensures
            final(self).wf(),
            final(self).num_elements_spec() == old(self).num_elements_spec(),
            final(self).element_size_spec() == old(self).element_size_spec(),
            (index < 0 || index >= old(self).num_elements_spec()) ==> r == Err::<Request, Error>(
                Error::InvalidArgument,
            ),
            (0 <= index < old(self).num_elements_spec() && old(self).next_id_spec() == u64::MAX) ==> r
                == Err::<Request, Error>(Error::OutOfMemory),
            r is Err ==> *final(self) == *old(self),
            (0 <= index < old(self).num_elements_spec() && old(self).next_id_spec() < u64::MAX) ==> (
            r matches Ok(req) && {
                let n = old(self).num_elements_spec();
                let b = old(self).element_size_spec();
                let kept = final(self).retained_spec().last();
                &&& req.id == old(self).next_id_spec() && !req.partner
                &&& !retains(old(self).retained_spec(), req.id)
                &&& request_fits(req, n, b)
                &&& final(self).retained_spec().len() == old(self).retained_spec().len() + 1
                &&& final(self).retained_spec().drop_last() == old(self).retained_spec()
                &&& kept.id == req.id && kept.index == index
                &&& complementary(kept.key, req.key, index as nat, select_mask(b as nat))
                &&& final(self).next_id_spec() == old(self).next_id_spec() + 1
            }),
    {
        if index < 0 || index >= self.num_elements {
            return Err(Error::InvalidArgument);
        }
        let (s0, s1) = fresh_seed_pair();
        self.create_request_with_seeds(index, s0, s1)
    }

    /// The request for a second evaluator: the same handle and shape, with
    /// the partner key retained for `request`. Fails with `Internal` exactly
    /// when nothing is retained under the request's handle.
    pub fn partner_request(&self, request: &Request) -> (r: Result<Request, Error>)
        requires
            self.wf(),
        ensures
            !retains(self.retained_spec(), request.id) ==> r == Err::<Request, Error>(Error::Internal),
            retains(self.retained_spec(), request.id) ==> (r matches Ok(p) && {
                &&& p.id == request.id && p.partner
                &&& p.num_elements == self.num_elements_spec() && p.element_size == self.element_size_spec()
                &&& exists|i: int|
                    0 <= i < self.retained_spec().len() && (#[trigger] self.retained_spec()[i]).id == request.id
                        && same_key(p.key, self.retained_spec()[i].key)
            }),
    {
        let pos = self.find(request.id);
        if pos == self.retained.len() {
            return Err(Error::Internal);
        }
        let key = self.retained[pos].key.duplicate();
        let p = Request {
            id: request.id,
            partner: true,
            num_elements: self.num_elements,
            element_size: self.element_size,
            key,
        };
        assert(self.retained_spec()[pos as int].id == request.id);
        Ok(p)
    }

    /// Position of the entry kept under `id`, or the number of entries when
    /// there is none.
    fn find(&self, id: u64) -> (pos: usize)
        ensures
            pos <= self.retained_spec().len(),
            pos == self.retained_spec().len() <==> !retains(self.retained_spec(), id),
            pos < self.retained_spec().len() ==> self.retained_spec()[pos as int].id == id,
    {
        let mut pos: usize = 0;
        while pos < self.retained.len() && self.retained[pos].id != id
            invariant
                pos <= self.retained@.len(),
                forall|k: int| 0 <= k < pos ==> (#[trigger] self.retained@[k]).id != id,
            decreases self.retained@.len() - pos,
        {
            pos = pos + 1;
        }
        pos
    }

    /// Recovers the record that `request` asked for from the two evaluators'
    /// responses, `response` to `request` and `partner_response` to its
    /// partner request: the XOR of their aggregates. Takes the query out of
    /// retention, so that a second call with it fails.
    ///
    /// Fails with `Internal` when nothing is retained under the request's
    /// handle (never made by this client, or already used), and with
    /// `InvalidArgument` when the responses do not answer the query; a
    /// failure changes nothing.
    pub fn get_result(&mut self, request: &Request, response: &Response, partner_response: &Response) -> (r: Result<
        Vec<u8>,
        Error,
    >)
        requires
            old(self).wf(),
        ensures
            final(self).wf(),
            final(self).num_elements_spec() == old(self).num_elements_spec(),
            final(self).element_size_spec() == old(self).element_size_spec(),
            final(self).next_id_spec() == old(self).next_id_spec(),
            !retains(old(self).retained_spec(), request.id) ==> r == Err::<Vec<u8>, Error>(Error::Internal),
            (retains(old(self).retained_spec(), request.id) && !responses_match(
                *request,
                *response,
                *partner_response,
                old(self).num_elements_spec(),
                old(self).element_size_spec(),
            )) ==> r == Err::<Vec<u8>, Error>(Error::InvalidArgument),
            r is Err ==> *final(self) == *old(self),
            (retains(old(self).retained_spec(), request.id) && responses_match(
                *request,
                *response,
                *partner_response,
                old(self).num_elements_spec(),
                old(self).element_size_spec(),
            )) ==> (r matches Ok(v) && v@ == xor_bytes(response.share@, partner_response.share@)),
            r is Ok ==> !retains(final(self).retained_spec(), request.id) && exists|pos: int|
                0 <= pos < old(self).retained_spec().len() && (#[trigger] old(self).retained_spec()[pos]).id
                    == request.id && final(self).retained_spec() == old(self).retained_spec().remove(pos),
    {
        let pos = self.find(request.id);
        if pos == self.retained.len() {
            return Err(Error::Internal);
        }
        let b = self.element_size as usize;
        let n = self.num_elements;
        if request.partner || request.num_elements != n || request.element_size != self.element_size
            || response.id != request.id || response.partner || partner_response.id != request.id
            || !partner_response.partner || response.num_elements != n || response.element_size
            != self.element_size || partner_response.num_elements != n || partner_response.element_size
            != self.element_size || response.share.len() != b || partner_response.share.len() != b {
            return Err(Error::InvalidArgument);
        }
        let mut out: Vec<u8> = Vec::with_capacity(b);
        let mut j: usize = 0;
        while j < b
            invariant
                j <= b,
                response.share@.len() == b,
                partner_response.share@.len() == b,
                out@.len() == j,
                forall|k: int| 0 <= k < j ==> out@[k] == response.share@[k] ^ partner_response.share@[k],
            decreases b - j,
        {
            out.push(response.share[j] ^ partner_response.share[j]);
            j = j + 1;
        }
        assert(out@ =~= xor_bytes(response.share@, partner_response.share@));
        let ghost before = self.retained@;
        self.retained.remove(pos);
        proof {
            lemma_remove_distinct(before, pos as int);
        }
        Ok(out)
    }
}

proof fn lemma_remove_distinct(s: Seq<Retained>, pos: int)
    requires
        distinct_ids(s),
        0 <= pos < s.len(),
    ensures
        distinct_ids(s.remove(pos)),
        !retains(s.remove(pos), s[pos].id),
        forall|i: int| 0 <= i < s.remove(pos).len() ==> #[trigger] s.remove(pos)[i] == s[if i < pos { i } else { i + 1 }],
{
    let t = s.remove(pos);
    assert forall|i: int| 0 <= i < t.len() implies #[trigger] t[i] == s[if i < pos { i } else { i + 1 }] by {}
    assert forall|i: int, j: int| 0 <= i < t.len() && 0 <= j < t.len() && i != j implies (#[trigger] t[i]).id
        != (#[trigger] t[j]).id by {
        let a = if i < pos { i } else { i + 1 };
        let c = if j < pos { j } else { j + 1 };
        assert(t[i] == s[a] && t[j] == s[c]);
    }
    if retains(t, s[pos].id) {
        let i = choose|i: int| 0 <= i < t.len() && (#[trigger] t[i]).id == s[pos].id;
        let a = if i < pos { i } else { i + 1 };
        assert(t[i] == s[a]);
    }
}

fn ones(len: usize) -> (v: Vec<u8>)
    ensures
        v@ == select_mask(len as nat),
{
    let mut v: Vec<u8> = Vec::with_capacity(len);
    let mut i: usize = 0;
    while i < len
        invariant
            i <= len,
            v@ =~= select_mask(i as nat),
        decreases len - i,
    {
        v.push(0xffu8);
        i = i + 1;
    }
    v
}

} // verus!
