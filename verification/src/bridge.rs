//! The boundary: opaque handles, their registry, and the boundary calls.
//!
//! Native objects — databases, sessions, transactions and row cursors —
//! are held in a slab of generation-tagged slots and handed to the host
//! as opaque 64-bit handles. A handle packs a slot index and the slot's
//! generation; closing a slot bumps the generation, so a stale handle is
//! detected and answered with an error instead of touching a reused slot.
//! Zero is never a valid handle, so the host may use it as the failure
//! sentinel.
//!
//! Every boundary call that does not destroy its handle leaves that handle
//! — and every other live handle — live, with its family unchanged; only
//! `close`, `commit` and `rollback` consume a handle, and they consume it
//! whatever the engine answers.

use vstd::prelude::*;

use crate::codec::{decode_params, encode_row};
use crate::engine::{
    engine_column_count, engine_commit, engine_connect, engine_execute, engine_execute_batch,
    engine_open_local, engine_open_remote, engine_open_replica, engine_params_named,
    engine_params_none, engine_params_positional, engine_query, engine_rollback, engine_row_value,
    engine_rows_next, engine_sync, engine_transaction, engine_tx_conn, key_to_string, runtime_new,
    scalar_from_engine, scalar_to_engine,
};
use crate::error::{BridgeError, ErrorKind};
use crate::values::{param_set_text_ok, scalar_text_ok, scalar_views, ParamSet, Scalar};
use crate::wire::{lemma_row_elem_bounds, lemma_row_round_trip, param_set_parse, row_parse};

verus! {

/// The handle families the boundary knows.
#[derive(Clone, Copy, PartialEq, Eq, Structural, Debug)]
pub enum Family {
    Db,
    Conn,
    Tx,
    Cur,
}

/// One native object owned by the registry.
enum Resource {
    Db(libsql::Database),
    Conn(libsql::Connection),
    Tx(libsql::Transaction),
    Cur(libsql::Rows),
}

/// One slot of the slab: its current generation, and the resource it
/// holds, if any.
struct Slot {
    gen: u32,
    res: Option<Resource>,
}

/// The bridge: the shared blocking executor and the handle slab. One
/// value of this type serves the whole process; the host layer guards it
/// with a lock and calls every boundary function through it.
pub struct Bridge {
    rt: tokio::runtime::Runtime,
    slots: Vec<Slot>,
}

/// The family a resource belongs to.
spec fn family_of(r: Resource) -> Family {
    match r {
        Resource::Db(_) => Family::Db,
        Resource::Conn(_) => Family::Conn,
        Resource::Tx(_) => Family::Tx,
        Resource::Cur(_) => Family::Cur,
    }
}

/// The slot index a handle refers to.
spec fn h_idx(h: u64) -> int {
    (h % 0x1_0000_0000) - 1
}

/// The generation a handle was minted with.
spec fn h_gen(h: u64) -> int {
    h as int / 0x1_0000_0000
}

impl Bridge {
    /// Whether `h` currently refers to a live native object: its slot
    /// exists, holds a resource, and still carries the handle's
    /// generation.
    pub closed spec fn live(self, h: u64) -> bool {
        &&& h % 0x1_0000_0000 != 0
        &&& h_idx(h) < self.slots.len()
        &&& self.slots[h_idx(h)].res is Some
        &&& self.slots[h_idx(h)].gen == h_gen(h)
    }

    /// The family of the object a live handle refers to.
    pub closed spec fn fam(self, h: u64) -> Family {
        family_of(self.slots[h_idx(h)].res->Some_0)
    }

    /// The registry's internal invariant: the slab never reaches the
    /// index bound, and an occupied slot's generation can still be
    /// bumped.
    pub closed spec fn wf(self) -> bool {
        &&& self.slots.len() < 0xFFFF_FFFE
        &&& forall|i: int|
            0 <= i < self.slots.len() ==> ((#[trigger] self.slots[i].res) is Some
                ==> self.slots[i].gen < 0xFFFF_FFFF)
    }

    /// Whether the slab can still mint a handle: some free slot can be
    /// reused, or the slab may still grow. Exhausting this — closing four
    /// billion handles into every slot of a four-billion-slot slab — is
    /// the one way an allocating call fails with a protocol error.
    pub closed spec fn can_mint(self) -> bool {
        ||| exists|i: int|
            0 <= i < self.slots.len() && (#[trigger] self.slots[i].res) is None
                && self.slots[i].gen < 0xFFFF_FFFF
        ||| self.slots.len() < 0xFFFF_FFFD
    }
}

/// Every handle live before is live after, in the same family: the
/// non-consuming borrow property.
pub open spec fn handles_preserved(pre: Bridge, post: Bridge) -> bool {
    forall|h: u64|
        pre.live(h) ==> #[trigger] post.live(h) && post.fam(h) == pre.fam(h)
}

/// Every handle but `h` keeps exactly its liveness and family.
pub open spec fn handles_preserved_except(pre: Bridge, post: Bridge, h: u64) -> bool {
    forall|h2: u64|
        h2 != h ==> (#[trigger] post.live(h2) == pre.live(h2)) && (pre.live(h2) ==> post.fam(h2)
            == pre.fam(h2))
}

/// Zero is the construction-failure sentinel: it never refers to a live
/// object, in any state of any bridge, so a host may test for it freely.
pub proof fn lemma_zero_is_never_live(b: Bridge)
    ensures
        !b.live(0),
{
}

/// Two handles with the same slot index and generation are the same
/// handle.
proof fn lemma_handle_determines(h1: u64, h2: u64)
    requires
        h_idx(h1) == h_idx(h2),
        h_gen(h1) == h_gen(h2),
    ensures
        h1 == h2,
{
    vstd::arithmetic::div_mod::lemma_fundamental_div_mod(h1 as int, 0x1_0000_0000);
    vstd::arithmetic::div_mod::lemma_fundamental_div_mod(h2 as int, 0x1_0000_0000);
}

/// Mint the handle for slot `i` at generation `gen`.
fn pack_handle(i: usize, gen: u32) -> (h: u64)
    requires
        i < 0xFFFF_FFFE,
    ensures
        h % 0x1_0000_0000 != 0,
        h_idx(h) == i,
        h_gen(h) == gen,
{
    let h = (gen as u64) * 0x1_0000_0000 + (i as u64) + 1;
    proof {
        vstd::arithmetic::div_mod::lemma_fundamental_div_mod_converse(
            h as int,
            0x1_0000_0000,
            gen as int,
            i as int + 1,
        );
    }
    h
}

impl Bridge {
    /// Find the slot a handle refers to, if the handle is live.
    fn slot_of(&self, h: u64) -> (r: Option<usize>)
        ensures
            match r {
                Some(i) => self.live(h) && i as int == h_idx(h) && i < self.slots.len(),
                None => !self.live(h),
            },
    {
        let m = h % 0x1_0000_0000;
        if m == 0 {
            return None;
        }
        let idx64 = m - 1;
        if idx64 >= self.slots.len() as u64 {
            return None;
        }
        let i = idx64 as usize;
        if (self.slots[i].gen as u64) != h / 0x1_0000_0000 {
            return None;
        }
        match &self.slots[i].res {
            Some(_) => Some(i),
            None => None,
        }
    }

    /// The family of the resource in an occupied slot.
    fn family_at(&self, i: usize) -> (f: Family)
        requires
            i < self.slots.len(),
            self.slots[i as int].res is Some,
        ensures
            f == family_of(self.slots[i as int].res->Some_0),
    {
        match &self.slots[i].res {
            Some(Resource::Db(_)) => Family::Db,
            Some(Resource::Conn(_)) => Family::Conn,
            Some(Resource::Tx(_)) => Family::Tx,
            Some(Resource::Cur(_)) => Family::Cur,
            None => vstd::pervasive::unreached(),
        }
    }

    /// Find a reusable free slot; when none exists, say so.
    fn find_free(&self) -> (r: Option<usize>)
        ensures
            r matches Some(i) ==> i < self.slots.len() && self.slots[i as int].res is None
                && self.slots[i as int].gen < 0xFFFF_FFFF,
            r is None ==> forall|i: int|
                0 <= i < self.slots.len() ==> !((#[trigger] self.slots[i].res) is None
                    && self.slots[i].gen < 0xFFFF_FFFF),
    {
        let mut i: usize = 0;
        while i < self.slots.len()
            invariant
                i <= self.slots.len(),
                forall|j: int|
                    0 <= j < i ==> !((#[trigger] self.slots[j].res) is None
                        && self.slots[j].gen < 0xFFFF_FFFF),
            decreases self.slots.len() - i,
        {
            if self.slots[i].res.is_none() && self.slots[i].gen < 0xFFFF_FFFF {
                return Some(i);
            }
            i = i + 1;
        }
        None
    }

    /// Store a fresh resource and mint its handle: a free slot is reused
    /// under its current generation, otherwise the slab grows by one slot.
    fn store(&mut self, res: Resource) -> (r: Result<u64, BridgeError>)
        requires
            old(self).wf(),
        ensures
            final(self).wf(),
            match r {
                Ok(h) => !old(self).live(h) && final(self).live(h) && final(self).fam(h)
                    == family_of(res) && handles_preserved_except(*old(self), *final(self), h)
                    && handles_preserved(*old(self), *final(self)),
                Err(e) => e.kind == ErrorKind::Protocol && !old(self).can_mint()
                    && *final(self) == *old(self),
            },
            r is Ok <==> old(self).can_mint(),
    {
        let ghost fam = family_of(res);
        match self.find_free() {
            Some(i) => {
                let g = self.slots[i].gen;
                let h = pack_handle(i, g);
                self.slots[i] = Slot { gen: g, res: Some(res) };
                proof {
                    assert(self.slots[i as int].res is Some);
                    assert forall|h2: u64| h2 != h implies (#[trigger] self.live(h2) == old(
                        self,
                    ).live(h2)) && (old(self).live(h2) ==> self.fam(h2) == old(self).fam(h2)) by {
                        if h_idx(h2) == i as int {
                            if h_gen(h2) == h_gen(h) {
                                lemma_handle_determines(h, h2);
                            }
                        }
                    }
                }
                Ok(h)
            },
            None => {
                if self.slots.len() < 0xFFFF_FFFD {
                    let i = self.slots.len();
                    let h = pack_handle(i, 0);
                    self.slots.push(Slot { gen: 0, res: Some(res) });
                    proof {
                        assert(self.slots[i as int].res is Some);
                        assert forall|h2: u64| h2 != h implies (#[trigger] self.live(h2) == old(
                            self,
                        ).live(h2)) && (old(self).live(h2) ==> self.fam(h2) == old(self).fam(
                            h2,
                        )) by {
                            if h_idx(h2) == i as int {
                                if h_gen(h2) == h_gen(h) {
                                    lemma_handle_determines(h, h2);
                                }
                            }
                        }
                    }
                    Ok(h)
                } else {
                    Err(BridgeError::protocol("handle space exhausted".to_owned()))
                }
            },
        }
    }

    /// Destroy the object a handle refers to, whatever its family. The
    /// slot's generation is bumped, so the handle is dead afterwards and
    /// a later use of it is answered with an error. A stale or unknown
    /// handle is refused without touching anything.
    pub fn close(&mut self, h: u64) -> (r: Result<(), BridgeError>)
        requires
            old(self).wf(),
        ensures
            final(self).wf(),
            match r {
                Ok(_) => old(self).live(h) && !final(self).live(h) && handles_preserved_except(
                    *old(self),
                    *final(self),
                    h,
                ),
                Err(e) => !old(self).live(h) && e.kind == ErrorKind::Protocol && *final(self)
                    == *old(self),
            },
    {
        match self.slot_of(h) {
            Some(i) => {
                let g = self.slots[i].gen;
                self.slots[i] = Slot { gen: g + 1, res: None };
                proof {
                    assert forall|h2: u64| h2 != h implies (#[trigger] self.live(h2) == old(
                        self,
                    ).live(h2)) && (old(self).live(h2) ==> self.fam(h2) == old(self).fam(h2)) by {
                        if h_idx(h2) == i as int {
                            if h_gen(h2) == h_gen(h) {
                                lemma_handle_determines(h, h2);
                            }
                        }
                    }
                }
                Ok(())
            },
            None => Err(
                BridgeError::protocol("handle is stale or refers to no object".to_owned()),
            ),
        }
    }
}

/// Every handle keeps exactly its liveness and family.
pub open spec fn handles_same(pre: Bridge, post: Bridge) -> bool {
    forall|h2: u64|
        (#[trigger] post.live(h2) == pre.live(h2)) && (pre.live(h2) ==> post.fam(h2) == pre.fam(
            h2,
        ))
}

/// The parameter buffer decodes to a parameter set whose names and text
/// scalars are all valid UTF-8: exactly then can it reach the engine.
pub open spec fn params_decodable(buf: Seq<u8>) -> bool {
    match param_set_parse(buf) {
        Some(p) => param_set_text_ok(p),
        None => false,
    }
}

/// Turn a decoded parameter set into the engine's own parameter set.
/// Fails, as an argument-decoding error, exactly when a name or a text
/// scalar is not valid UTF-8.
fn to_engine_params(p: ParamSet) -> (r: Result<libsql::params::Params, BridgeError>)
    ensures
        r is Ok <==> param_set_text_ok(p@),
        r is Err ==> (r->Err_0).kind == ErrorKind::ArgumentDecoding,
{
    match p {
        ParamSet::Absent => Ok(engine_params_none()),
        ParamSet::Positional(vs) => {
            let mut out: Vec<libsql::Value> = Vec::new();
            let mut i: usize = 0;
            while i < vs.len()
                invariant
                    i <= vs.len(),
                    p@ == crate::values::ParamSetModel::Positional(scalar_views(vs@)),
                    forall|j: int| 0 <= j < i ==> scalar_text_ok(#[trigger] scalar_views(vs@)[j]),
                decreases vs.len() - i,
            {
                match scalar_to_engine(&vs[i]) {
                    Some(ev) => out.push(ev),
                    None => {
                        proof {
                            assert(scalar_views(vs@)[i as int] == vs@[i as int]@);
                            assert(!crate::values::scalars_text_ok(scalar_views(vs@)));
                        }
                        return Err(
                            BridgeError::argument_decoding(
                                "parameter text is not valid UTF-8".to_owned(),
                            ),
                        );
                    },
                }
                i = i + 1;
            }
            proof {
                assert(scalar_views(vs@).len() == vs@.len());
            }
            Ok(engine_params_positional(out))
        },
        ParamSet::Named(entries) => {
            let mut out: Vec<(String, libsql::Value)> = Vec::new();
            let mut i: usize = 0;
            while i < entries.len()
                invariant
                    i <= entries.len(),
                    p@ == crate::values::ParamSetModel::Named(crate::values::entry_views(entries@)),
                    forall|j: int| 0 <= j < i ==> vstd::utf8::valid_utf8(
                        (#[trigger] crate::values::entry_views(entries@)[j]).0,
                    ) && scalar_text_ok(crate::values::entry_views(entries@)[j].1),
                decreases entries.len() - i,
            {
                let key = (match key_to_string(&entries[i].0) {
                    Some(k) => k,
                    None => {
                        proof {
                            assert(crate::values::entry_views(entries@)[i as int]
                                == (entries@[i as int].0@, entries@[i as int].1@));
                            assert(!crate::values::entries_text_ok(
                                crate::values::entry_views(entries@),
                            ));
                        }
                        return Err(
                            BridgeError::argument_decoding(
                                "parameter name is not valid UTF-8".to_owned(),
                            ),
                        );
                    },
                });
                match scalar_to_engine(&entries[i].1) {
                    Some(ev) => out.push((key, ev)),
                    None => {
                        proof {
                            assert(crate::values::entry_views(entries@)[i as int]
                                == (entries@[i as int].0@, entries@[i as int].1@));
                            assert(!crate::values::entries_text_ok(
                                crate::values::entry_views(entries@),
                            ));
                        }
                        return Err(
                            BridgeError::argument_decoding(
                                "parameter text is not valid UTF-8".to_owned(),
                            ),
                        );
                    },
                }
                i = i + 1;
            }
            proof {
                assert(crate::values::entry_views(entries@).len() == entries@.len());
            }
            Ok(engine_params_named(out))
        },
    }
}

/// Run one statement on a session: decode the parameter buffer, convert
/// the values, and block on the engine's execute. Returns the number of
/// rows the statement affected.
///
/// A malformed buffer, or parameter text that is not valid UTF-8, is an
/// argument-decoding error and the engine is never reached; on decodable
/// input any failure is the engine's, reported as an operation error.
pub fn execute(
    rt: &tokio::runtime::Runtime,
    conn: &libsql::Connection,
    sql: &str,
    buf: &[u8],
) -> (r: Result<u64, BridgeError>)
    ensures
        (match param_set_parse(buf@) {
            None => r is Err && (r->Err_0).kind == ErrorKind::ArgumentDecoding,
            Some(p) => (!param_set_text_ok(p) ==> r is Err && (r->Err_0).kind == ErrorKind::ArgumentDecoding) && (param_set_text_ok(p) ==> (r is Err ==> (r->Err_0).kind == ErrorKind::Operation)),
        }),
{
    match decode_params(buf) {
        None => Err(BridgeError::argument_decoding("malformed parameters buffer".to_owned())),
        Some(p) => match to_engine_params(p) {
            Ok(ep) => match engine_execute(rt, conn, sql, ep) {
                Ok(n) => Ok(n),
                Err(m) => Err(BridgeError::operation(m)),
            },
            Err(e) => Err(e),
        },
    }
}

/// Run one statement on a session and hand back its result stream. The
/// parameter buffer is decoded and converted exactly as in `execute`.
pub fn query(
    rt: &tokio::runtime::Runtime,
    conn: &libsql::Connection,
    sql: &str,
    buf: &[u8],
) -> (r: Result<libsql::Rows, BridgeError>)
    ensures
        (match param_set_parse(buf@) {
            None => r is Err && (r->Err_0).kind == ErrorKind::ArgumentDecoding,
            Some(p) => (!param_set_text_ok(p) ==> r is Err && (r->Err_0).kind == ErrorKind::ArgumentDecoding) && (param_set_text_ok(p) ==> (r is Err ==> (r->Err_0).kind == ErrorKind::Operation)),
        }),
{
    match decode_params(buf) {
        None => Err(BridgeError::argument_decoding("malformed parameters buffer".to_owned())),
        Some(p) => match to_engine_params(p) {
            Ok(ep) => match engine_query(rt, conn, sql, ep) {
                Ok(rows) => Ok(rows),
                Err(m) => Err(BridgeError::operation(m)),
            },
            Err(e) => Err(e),
        },
    }
}

impl Bridge {
    /// Build the bridge: one blocking executor and an empty slab. No
    /// handle is live in a fresh bridge.
    pub fn new() -> (r: Result<Bridge, BridgeError>)
        ensures
            match r {
                Ok(b) => b.wf() && forall|h: u64| !b.live(h),
                Err(e) => e.kind == ErrorKind::Construction,
            },
    {
        match runtime_new() {
            Ok(rt) => Ok(Bridge { rt, slots: Vec::new() }),
            Err(m) => Err(BridgeError::construction(m)),
        }
    }

    /// Open a local database file and mint a database handle.
    pub fn open_local(&mut self, path: &str) -> (r: Result<u64, BridgeError>)
        requires
            old(self).wf(),
        ensures
            final(self).wf(),
            match r {
                Ok(h) => !old(self).live(h) && final(self).live(h) && final(self).fam(h)
                    == Family::Db && handles_preserved_except(*old(self), *final(self), h)
                    && handles_preserved(*old(self), *final(self)),
                Err(e) => (e.kind == ErrorKind::Construction || (e.kind == ErrorKind::Protocol
                    && !old(self).can_mint())) && *final(self) == *old(self),
            },
    {
        match engine_open_local(&self.rt, path) {
            Ok(db) => self.store(Resource::Db(db)),
            Err(m) => Err(BridgeError::construction(m)),
        }
    }

    /// Open a remote database client and mint a database handle.
    pub fn open_remote(&mut self, url: String, auth_token: String) -> (r: Result<
        u64,
        BridgeError,
    >)
        requires
            old(self).wf(),
        ensures
            final(self).wf(),
            match r {
                Ok(h) => !old(self).live(h) && final(self).live(h) && final(self).fam(h)
                    == Family::Db && handles_preserved_except(*old(self), *final(self), h)
                    && handles_preserved(*old(self), *final(self)),
                Err(e) => (e.kind == ErrorKind::Construction || (e.kind == ErrorKind::Protocol
                    && !old(self).can_mint())) && *final(self) == *old(self),
            },
    {
        match engine_open_remote(&self.rt, url, auth_token) {
            Ok(db) => self.store(Resource::Db(db)),
            Err(m) => Err(BridgeError::construction(m)),
        }
    }

    /// Open an embedded replica — a local file paired with a remote sync
    /// source — and mint a database handle.
    pub fn open_embedded_replica(&mut self, path: &str, url: String, auth_token: String) -> (r:
        Result<u64, BridgeError>)
        requires
            old(self).wf(),
        ensures
            final(self).wf(),
            match r {
                Ok(h) => !old(self).live(h) && final(self).live(h) && final(self).fam(h)
                    == Family::Db && handles_preserved_except(*old(self), *final(self), h)
                    && handles_preserved(*old(self), *final(self)),
                Err(e) => (e.kind == ErrorKind::Construction || (e.kind == ErrorKind::Protocol
                    && !old(self).can_mint())) && *final(self) == *old(self),
            },
    {
        match engine_open_replica(&self.rt, path, url, auth_token) {
            Ok(db) => self.store(Resource::Db(db)),
            Err(m) => Err(BridgeError::construction(m)),
        }
    }

    /// Produce a new session on an open database and mint a connection
    /// handle. The database handle stays live: connecting borrows it.
    #[verifier::rlimit(50)]
    #[verifier::spinoff_prover]
    pub fn connect(&mut self, db: u64) -> (r: Result<u64, BridgeError>)
        requires
            old(self).wf(),
        ensures
            final(self).wf(),
            !(old(self).live(db) && old(self).fam(db) == Family::Db) ==> (*final(self) == *old(
                self,
            ) && r is Err && (r->Err_0).kind == ErrorKind::Protocol),
            (old(self).live(db) && old(self).fam(db) == Family::Db && r is Ok) ==> (!old(
                self,
            ).live(r->Ok_0) && final(self).live(r->Ok_0) && final(self).fam(r->Ok_0)
                == Family::Conn && handles_preserved_except(*old(self), *final(self), r->Ok_0)
                && handles_preserved(*old(self), *final(self)) && final(self).live(db)
                && final(self).fam(db) == Family::Db),
            (old(self).live(db) && old(self).fam(db) == Family::Db && r is Err) ==> (((
            r->Err_0).kind == ErrorKind::Construction || ((r->Err_0).kind == ErrorKind::Protocol
                && !old(self).can_mint())) && *final(self) == *old(self)),
    {
        let oi = self.slot_of(db);
        if oi.is_none() {
            return Err(BridgeError::protocol("handle is stale or refers to no object".to_owned()));
        }
        let i = oi.unwrap();
        if self.family_at(i) != Family::Db {
            return Err(BridgeError::protocol("handle does not refer to a database".to_owned()));
        }
        let cr = (match &self.slots[i].res {
            Some(Resource::Db(d)) => engine_connect(d),
            _ => vstd::pervasive::unreached(),
        });
        match cr {
            Ok(conn) => {
                let out = self.store(Resource::Conn(conn));
                proof {
                    if out is Ok {
                        let hh = out->Ok_0;
                        assert(self.live(hh));
                        assert(self.fam(hh) == Family::Conn);
                        assert(self.live(db));
                        assert(self.fam(db) == Family::Db);
                    }
                }
                out
            },
            Err(m) => Err(BridgeError::construction(m)),
        }
    }

    /// Pull remote changes into the local file of an embedded replica.
    /// Borrows the database handle; the registry is untouched.
    pub fn sync(&self, db: u64) -> (r: Result<(), BridgeError>)
        ensures
            !(self.live(db) && self.fam(db) == Family::Db) ==> r is Err && (r->Err_0).kind == ErrorKind::Protocol,
            (self.live(db) && self.fam(db) == Family::Db) ==> (r is Err ==> (r->Err_0).kind == ErrorKind::Operation),
    {
        let oi = self.slot_of(db);
        if oi.is_none() {
            return Err(BridgeError::protocol("handle is stale or refers to no object".to_owned()));
        }
        let i = oi.unwrap();
        if self.family_at(i) != Family::Db {
            return Err(BridgeError::protocol("handle does not refer to a database".to_owned()));
        }
        let sr = (match &self.slots[i].res {
            Some(Resource::Db(d)) => engine_sync(&self.rt, d),
            _ => vstd::pervasive::unreached(),
        });
        match sr {
            Ok(_) => Ok(()),
            Err(m) => Err(BridgeError::operation(m)),
        }
    }

    /// Run one statement through a connection or transaction handle.
    /// Borrows the handle; the registry is untouched.
    pub fn execute(&self, h: u64, sql: &str, buf: &[u8]) -> (r: Result<u64, BridgeError>)
        ensures
            !(self.live(h) && (self.fam(h) == Family::Conn || self.fam(h) == Family::Tx))
                ==> r is Err && (r->Err_0).kind == ErrorKind::Protocol,
            (self.live(h) && (self.fam(h) == Family::Conn || self.fam(h) == Family::Tx)) ==> (
            match param_set_parse(buf@) {
                None => r is Err && (r->Err_0).kind == ErrorKind::ArgumentDecoding,
                Some(p) => (!param_set_text_ok(p) ==> r is Err && (r->Err_0).kind == ErrorKind::ArgumentDecoding) && (param_set_text_ok(p) ==> (r is Err ==> (r->Err_0).kind == ErrorKind::Operation)),
            }),
    {
        let oi = self.slot_of(h);
        if oi.is_none() {
            return Err(BridgeError::protocol("handle is stale or refers to no object".to_owned()));
        }
        let i = oi.unwrap();
        let f = self.family_at(i);
        if f != Family::Conn && f != Family::Tx {
            return Err(
                BridgeError::protocol(
                    "handle does not refer to a connection or transaction".to_owned(),
                ),
            );
        }
        match &self.slots[i].res {
            Some(Resource::Conn(c)) => execute(&self.rt, c, sql, buf),
            Some(Resource::Tx(t)) => execute(&self.rt, engine_tx_conn(t), sql, buf),
            _ => vstd::pervasive::unreached(),
        }
    }

    /// Run a batch of statements through a connection or transaction
    /// handle; any result rows the batch produces are discarded. Borrows
    /// the handle; the registry is untouched.
    pub fn execute_batch(&self, h: u64, sql: &str) -> (r: Result<(), BridgeError>)
        ensures
            !(self.live(h) && (self.fam(h) == Family::Conn || self.fam(h) == Family::Tx))
                ==> r is Err && (r->Err_0).kind == ErrorKind::Protocol,
            (self.live(h) && (self.fam(h) == Family::Conn || self.fam(h) == Family::Tx)) ==> (
            r is Err ==> (r->Err_0).kind == ErrorKind::Operation),
    {
        let oi = self.slot_of(h);
        if oi.is_none() {
            return Err(BridgeError::protocol("handle is stale or refers to no object".to_owned()));
        }
        let i = oi.unwrap();
        let f = self.family_at(i);
        if f != Family::Conn && f != Family::Tx {
            return Err(
                BridgeError::protocol(
                    "handle does not refer to a connection or transaction".to_owned(),
                ),
            );
        }
        let br = (match &self.slots[i].res {
            Some(Resource::Conn(c)) => engine_execute_batch(&self.rt, c, sql),
            Some(Resource::Tx(t)) => engine_execute_batch(&self.rt, engine_tx_conn(t), sql),
            _ => vstd::pervasive::unreached(),
        });
        match br {
            Ok(_) => Ok(()),
            Err(m) => Err(BridgeError::operation(m)),
        }
    }

    /// Run a row-returning statement through a connection or transaction
    /// handle and mint a cursor handle for its result stream. The source
    /// handle stays live.
    #[verifier::rlimit(50)]
    #[verifier::spinoff_prover]
    pub fn query(&mut self, h: u64, sql: &str, buf: &[u8]) -> (r: Result<u64, BridgeError>)
        requires
            old(self).wf(),
        ensures
            final(self).wf(),
            !(old(self).live(h) && (old(self).fam(h) == Family::Conn || old(self).fam(h)
                == Family::Tx)) ==> (*final(self) == *old(self) && r is Err && (r->Err_0).kind == ErrorKind::Protocol),
            (old(self).live(h) && (old(self).fam(h) == Family::Conn || old(self).fam(h)
                == Family::Tx) && !params_decodable(buf@)) ==> (*final(self) == *old(self)
                && r is Err && (r->Err_0).kind == ErrorKind::ArgumentDecoding),
            (old(self).live(h) && (old(self).fam(h) == Family::Conn || old(self).fam(h)
                == Family::Tx) && params_decodable(buf@) && r is Ok) ==> (!old(self).live(r->Ok_0)
                && final(self).live(r->Ok_0) && final(self).fam(r->Ok_0) == Family::Cur
                && handles_preserved_except(*old(self), *final(self), r->Ok_0)
                && handles_preserved(*old(self), *final(self)) && final(self).live(h)
                && final(self).fam(h) == old(self).fam(h)),
            (old(self).live(h) && (old(self).fam(h) == Family::Conn || old(self).fam(h)
                == Family::Tx) && params_decodable(buf@) && r is Err) ==> (((r->Err_0).kind
                == ErrorKind::Operation || ((r->Err_0).kind == ErrorKind::Protocol && !old(
                self,
            ).can_mint())) && *final(self) == *old(self)),
    {
        let oi = self.slot_of(h);
        if oi.is_none() {
            return Err(BridgeError::protocol("handle is stale or refers to no object".to_owned()));
        }
        let i = oi.unwrap();
        let f = self.family_at(i);
        if f != Family::Conn && f != Family::Tx {
            return Err(
                BridgeError::protocol(
                    "handle does not refer to a connection or transaction".to_owned(),
                ),
            );
        }
        let rows_r = (match &self.slots[i].res {
            Some(Resource::Conn(c)) => query(&self.rt, c, sql, buf),
            Some(Resource::Tx(t)) => query(&self.rt, engine_tx_conn(t), sql, buf),
            _ => vstd::pervasive::unreached(),
        });
        match rows_r {
            Ok(rows) => {
                let out = self.store(Resource::Cur(rows));
                proof {
                    if out is Ok {
                        let hh = out->Ok_0;
                        assert(self.live(hh));
                        assert(self.fam(hh) == Family::Cur);
                        assert(self.live(h));
                        assert(self.fam(h) == old(self).fam(h));
                    }
                }
                out
            },
            Err(e) => Err(e),
        }
    }

    /// Begin a transaction — a savepoint when the handle is itself a
    /// transaction — and mint a transaction handle. The source handle
    /// stays live.
    #[verifier::rlimit(50)]
    #[verifier::spinoff_prover]
    pub fn begin_transaction(&mut self, h: u64) -> (r: Result<u64, BridgeError>)
        requires
            old(self).wf(),
        ensures
            final(self).wf(),
            !(old(self).live(h) && (old(self).fam(h) == Family::Conn || old(self).fam(h)
                == Family::Tx)) ==> (*final(self) == *old(self) && r is Err && (r->Err_0).kind == ErrorKind::Protocol),
            (old(self).live(h) && (old(self).fam(h) == Family::Conn || old(self).fam(h)
                == Family::Tx) && r is Ok) ==> (!old(self).live(r->Ok_0) && final(self).live(
                r->Ok_0,
            ) && final(self).fam(r->Ok_0) == Family::Tx && handles_preserved_except(
                *old(self),
                *final(self),
                r->Ok_0,
            ) && handles_preserved(*old(self), *final(self)) && final(self).live(h)
                && final(self).fam(h) == old(self).fam(h)),
            (old(self).live(h) && (old(self).fam(h) == Family::Conn || old(self).fam(h)
                == Family::Tx) && r is Err) ==> (((r->Err_0).kind == ErrorKind::Construction || (
            (r->Err_0).kind == ErrorKind::Protocol && !old(self).can_mint())) && *final(self)
                == *old(self)),
    {
        let oi = self.slot_of(h);
        if oi.is_none() {
            return Err(BridgeError::protocol("handle is stale or refers to no object".to_owned()));
        }
        let i = oi.unwrap();
        let f = self.family_at(i);
        if f != Family::Conn && f != Family::Tx {
            return Err(
                BridgeError::protocol(
                    "handle does not refer to a connection or transaction".to_owned(),
                ),
            );
        }
        let tr = (match &self.slots[i].res {
            Some(Resource::Conn(c)) => engine_transaction(&self.rt, c),
            Some(Resource::Tx(t)) => engine_transaction(&self.rt, engine_tx_conn(t)),
            _ => vstd::pervasive::unreached(),
        });
        match tr {
            Ok(tx) => {
                let out = self.store(Resource::Tx(tx));
                proof {
                    if out is Ok {
                        let hh = out->Ok_0;
                        assert(self.live(hh));
                        assert(self.fam(hh) == Family::Tx);
                        assert(self.live(h));
                        assert(self.fam(h) == old(self).fam(h));
                    }
                }
                out
            },
            Err(m) => Err(BridgeError::construction(m)),
        }
    }

    /// Commit a transaction. The handle is consumed whatever the engine
    /// answers: afterwards it is dead and a later use of it is refused.
    pub fn commit(&mut self, h: u64) -> (r: Result<(), BridgeError>)
        requires
            old(self).wf(),
        ensures
            final(self).wf(),
            !(old(self).live(h) && old(self).fam(h) == Family::Tx) ==> (*final(self) == *old(self)
                && r is Err && (r->Err_0).kind == ErrorKind::Protocol),
            (old(self).live(h) && old(self).fam(h) == Family::Tx) ==> (!final(self).live(h)
                && handles_preserved_except(*old(self), *final(self), h) && (r is Err ==> (r->Err_0).kind == ErrorKind::Operation)),
    {
        self.finish_transaction(h, true)
    }

    /// Roll a transaction back. The handle is consumed whatever the
    /// engine answers, exactly as for `commit`.
    pub fn rollback(&mut self, h: u64) -> (r: Result<(), BridgeError>)
        requires
            old(self).wf(),
        ensures
            final(self).wf(),
            !(old(self).live(h) && old(self).fam(h) == Family::Tx) ==> (*final(self) == *old(self)
                && r is Err && (r->Err_0).kind == ErrorKind::Protocol),
            (old(self).live(h) && old(self).fam(h) == Family::Tx) ==> (!final(self).live(h)
                && handles_preserved_except(*old(self), *final(self), h) && (r is Err ==> (r->Err_0).kind == ErrorKind::Operation)),
    {
        self.finish_transaction(h, false)
    }

    /// Take a transaction out of its slot, bump the slot's generation and
    /// hand the transaction to the engine's commit or rollback.
    fn finish_transaction(&mut self, h: u64, commit: bool) -> (r: Result<(), BridgeError>)
        requires
            old(self).wf(),
        ensures
            final(self).wf(),
            !(old(self).live(h) && old(self).fam(h) == Family::Tx) ==> (*final(self) == *old(self)
                && r is Err && (r->Err_0).kind == ErrorKind::Protocol),
            (old(self).live(h) && old(self).fam(h) == Family::Tx) ==> (!final(self).live(h)
                && handles_preserved_except(*old(self), *final(self), h) && (r is Err ==> (r->Err_0).kind == ErrorKind::Operation)),
    {
        let oi = self.slot_of(h);
        if oi.is_none() {
            return Err(BridgeError::protocol("handle is stale or refers to no object".to_owned()));
        }
        let i = oi.unwrap();
        if self.family_at(i) != Family::Tx {
            return Err(BridgeError::protocol("handle does not refer to a transaction".to_owned()));
        }
        let g = self.slots[i].gen;
        let slot = vstd::std_specs::vec::vec_index_mut(&mut self.slots, i);
        let res = slot.res.take();
        *slot = Slot { gen: g + 1, res: None };
        let tx = (match res {
            Some(Resource::Tx(tx)) => tx,
            _ => vstd::pervasive::unreached(),
        });
        let er = if commit {
            engine_commit(&self.rt, tx)
        } else {
            engine_rollback(&self.rt, tx)
        };
        proof {
            assert forall|h2: u64| h2 != h implies (#[trigger] self.live(h2) == old(self).live(
                h2,
            )) && (old(self).live(h2) ==> self.fam(h2) == old(self).fam(h2)) by {
                if h_idx(h2) == i as int {
                    if h_gen(h2) == h_gen(h) {
                        lemma_handle_determines(h, h2);
                    }
                }
            }
        }
        match er {
            Ok(_) => Ok(()),
            Err(m) => Err(BridgeError::operation(m)),
        }
    }

    /// Advance a cursor by one row. Returns the next row, encoded as a
    /// row message that the codec is proved to accept, or nothing once
    /// the stream is exhausted. The cursor handle stays live either way;
    /// exhaustion does not destroy it.
    pub fn next_row(&mut self, h: u64) -> (r: Result<Option<Vec<u8>>, BridgeError>)
        requires
            old(self).wf(),
        ensures
            final(self).wf(),
            handles_same(*old(self), *final(self)),
            !(old(self).live(h) && old(self).fam(h) == Family::Cur) ==> (*final(self) == *old(
                self,
            ) && r is Err && (r->Err_0).kind == ErrorKind::Protocol),
            (old(self).live(h) && old(self).fam(h) == Family::Cur) ==> (match r {
                Ok(row) => (row matches Some(bytes) ==> row_parse(bytes@) is Some),
                Err(e) => e.kind == ErrorKind::Operation,
            }),
    {
        let oi = self.slot_of(h);
        if oi.is_none() {
            return Err(BridgeError::protocol("handle is stale or refers to no object".to_owned()));
        }
        let i = oi.unwrap();
        if self.family_at(i) != Family::Cur {
            return Err(BridgeError::protocol("handle does not refer to a cursor".to_owned()));
        }
        let g = self.slots[i].gen;
        let slot = vstd::std_specs::vec::vec_index_mut(&mut self.slots, i);
        let res = slot.res.take();
        let mut rows = (match res {
            Some(Resource::Cur(rows)) => rows,
            _ => vstd::pervasive::unreached(),
        });
        let step = engine_rows_next(&self.rt, &mut rows);
        let out = (match step {
            Ok(Some(row)) => {
                let n = engine_column_count(&rows);
                let mut values: Vec<Scalar> = Vec::new();
                let mut idx: i32 = 0;
                let mut failed: Option<String> = None;
                while idx < n && failed.is_none()
                    invariant
                        0 <= idx,
                    decreases n - idx,
                {
                    match engine_row_value(&row, idx) {
                        Ok(ev) => values.push(scalar_from_engine(ev)),
                        Err(m) => failed = Some(m),
                    }
                    idx = idx + 1;
                }
                match failed {
                    Some(m) => Err(BridgeError::operation(m)),
                    None => {
                        let bytes = encode_row(&values);
                        let blen64: u64 = bytes.len() as u64;
                        proof {
                            assert(bytes@.len() == blen64 as nat);
                            lemma_row_elem_bounds(scalar_views(values@));
                            lemma_row_round_trip(scalar_views(values@));
                        }
                        Ok(Some(bytes))
                    },
                }
            },
            Ok(None) => Ok(None),
            Err(m) => Err(BridgeError::operation(m)),
        });
        slot.res = Some(Resource::Cur(rows));
        proof {
            assert forall|h2: u64|
                (#[trigger] self.live(h2) == old(self).live(h2)) && (old(self).live(h2)
                    ==> self.fam(h2) == old(self).fam(h2)) by {
                if h_idx(h2) == i as int {
                } else {
                }
            }
        }
        out
    }
}

} // verus!
