//! The record lifecycle engine: a store of size-bounded records, each
//! living at the address derived from its natural key and its owner.
//!
//! The store models one program's slice of the external ledger: every
//! record carries the funds backing it (`lamports`), which are the one-time
//! allocation reserve plus any custodied amount. Fund movement itself is
//! the host's business: operations take the funds offered by the caller as
//! a plain value and return the change or the reclaimed amount, and the
//! contracts say exactly how much moves.
//!
//! A record exists at its derived address if and only if `create` has run
//! and `delete` has not; `create` fails on a present record, `update` and
//! `delete` fail on an absent one and for any caller other than the stored
//! owner.

use vstd::prelude::*;

use crate::address::{derive_address, derived_address};
use crate::error::StoreError;
use crate::shape::{
    arity_matches, first_violation, max_record_size, max_size, payload_size, payload_valid,
    record_size, shape_wf, validate, Payload, PayloadV, Shape, ShapeV,
};

verus! {

/// One stored record with its backing-storage accounting.
pub struct Entry {
    /// The derived storage address the record lives at.
    pub address: Vec<u8>,
    /// The nonce that made the derived address valid.
    pub nonce: u8,
    /// Identity of the account authorized to mutate or close the record.
    pub owner: Vec<u8>,
    /// The caller-supplied bytes the address was derived from.
    pub natural_key: Vec<u8>,
    /// The bounded text fields of the payload.
    pub texts: Vec<Vec<u8>>,
    /// The scalar fields of the payload.
    pub scalars: Vec<u64>,
    /// Bytes of storage the record takes at its current field lengths.
    pub storage_size: usize,
    /// Funds held in custody beyond the allocation reserve.
    pub custodied: u64,
    /// All funds backing the record: reserve plus custodied amount.
    pub lamports: u64,
}

/// The mathematical value of a stored record.
pub struct Rec {
    pub nonce: u8,
    pub owner: Seq<u8>,
    pub natural_key: Seq<u8>,
    pub texts: Seq<Seq<u8>>,
    pub scalars: Seq<u64>,
    pub storage_size: int,
    pub custodied: u64,
    pub lamports: u64,
}

impl Entry {
    /// The mathematical value of this entry.
    pub open spec fn rec(self) -> Rec {
        Rec {
            nonce: self.nonce,
            owner: self.owner@,
            natural_key: self.natural_key@,
            texts: crate::shape::texts_view(self.texts),
            scalars: self.scalars@,
            storage_size: self.storage_size as int,
            custodied: self.custodied,
            lamports: self.lamports,
        }
    }
}

/// The payload a stored record currently holds.
pub open spec fn rec_payload(r: Rec) -> PayloadV {
    PayloadV { texts: r.texts, scalars: r.scalars }
}

/// The records held by a sequence of entries, as a map from address to
/// record value.
pub open spec fn map_of(entries: Seq<Entry>) -> Map<Seq<u8>, Rec>
    decreases entries.len(),
{
    if entries.len() == 0 {
        Map::empty()
    } else {
        map_of(entries.drop_last()).insert(entries.last().address@, entries.last().rec())
    }
}

/// No two entries live at the same address.
pub open spec fn unique_addresses(entries: Seq<Entry>) -> bool {
    forall|i: int, j: int|
        0 <= i < j < entries.len() ==> entries[i].address@ != entries[j].address@
}

proof fn lemma_map_of_contains(entries: Seq<Entry>, k: Seq<u8>)
    ensures
        map_of(entries).contains_key(k) <==> exists|i: int|
            0 <= i < entries.len() && entries[i].address@ == k,
    decreases entries.len(),
{
    if entries.len() > 0 {
        lemma_map_of_contains(entries.drop_last(), k);
        if entries.last().address@ == k {
            assert(entries[entries.len() - 1].address@ == k);
        } else {
            if exists|i: int| 0 <= i < entries.len() && entries[i].address@ == k {
                let i = choose|i: int| 0 <= i < entries.len() && entries[i].address@ == k;
                assert(entries.drop_last()[i].address@ == k);
            }
        }
    }
}

proof fn lemma_map_of_index(entries: Seq<Entry>, i: int)
    requires
        unique_addresses(entries),
        0 <= i < entries.len(),
    ensures
        map_of(entries).contains_key(entries[i].address@),
        map_of(entries)[entries[i].address@] == entries[i].rec(),
    decreases entries.len(),
{
    if i == entries.len() - 1 {
    } else {
        assert(forall|a: int, b: int|
            0 <= a < b < entries.len() - 1 ==> entries.drop_last()[a].address@
                != entries.drop_last()[b].address@);
        lemma_map_of_index(entries.drop_last(), i);
        assert(entries[i].address@ != entries.last().address@);
    }
}

proof fn lemma_map_of_push(entries: Seq<Entry>, e: Entry)
    ensures
        map_of(entries.push(e)) == map_of(entries).insert(e.address@, e.rec()),
{
    assert(entries.push(e).drop_last() =~= entries);
    assert(entries.push(e).last() == e);
}

proof fn lemma_unique_remove(entries: Seq<Entry>, i: int)
    requires
        unique_addresses(entries),
        0 <= i < entries.len(),
    ensures
        unique_addresses(entries.remove(i)),
        forall|j: int|
            0 <= j < entries.remove(i).len() ==> entries.remove(i)[j].address@
                != entries[i].address@,
{
    let s = entries.remove(i);
    assert forall|a: int, b: int| 0 <= a < b < s.len() implies s[a].address@ != s[b].address@ by {
        let a0: int = if a < i {
            a
        } else {
            a + 1
        };
        let b0: int = if b < i {
            b
        } else {
            b + 1
        };
        assert(s[a] == entries[a0]);
        assert(s[b] == entries[b0]);
    }
    assert forall|j: int| 0 <= j < s.len() implies s[j].address@ != entries[i].address@ by {
        let j0: int = if j < i {
            j
        } else {
            j + 1
        };
        assert(s[j] == entries[j0]);
    }
}

proof fn lemma_map_of_remove(entries: Seq<Entry>, i: int)
    requires
        unique_addresses(entries),
        0 <= i < entries.len(),
    ensures
        map_of(entries.remove(i)) == map_of(entries).remove(entries[i].address@),
    decreases entries.len(),
{
    let k = entries[i].address@;
    if i == entries.len() - 1 {
        assert(entries.remove(i) =~= entries.drop_last());
        lemma_map_of_contains(entries.drop_last(), k);
        assert(forall|j: int|
            0 <= j < entries.len() - 1 ==> entries.drop_last()[j].address@ != k);
        assert(map_of(entries.drop_last()) =~= map_of(entries).remove(k));
    } else {
        assert(forall|a: int, b: int|
            0 <= a < b < entries.len() - 1 ==> entries.drop_last()[a].address@
                != entries.drop_last()[b].address@);
        lemma_map_of_remove(entries.drop_last(), i);
        assert(entries.remove(i).drop_last() =~= entries.drop_last().remove(i));
        assert(entries.remove(i).last() == entries.last());
        assert(k != entries.last().address@);
        assert(map_of(entries.drop_last()).remove(k).insert(
            entries.last().address@,
            entries.last().rec(),
        ) =~= map_of(entries.drop_last()).insert(
            entries.last().address@,
            entries.last().rec(),
        ).remove(k));
    }
}

/// Compare two byte strings for equality.
pub(crate) fn bytes_eq(a: &Vec<u8>, b: &Vec<u8>) -> (r: bool)
    ensures
        r <==> a@ == b@,
{
    if a.len() != b.len() {
        return false;
    }
    let n = a.len();
    let mut i: usize = 0;
    while i < n
        invariant
            n == a@.len(),
            a@.len() == b@.len(),
            0 <= i <= n,
            forall|j: int| 0 <= j < i ==> a@[j] == b@[j],
        decreases n - i,
    {
        if a[i] != b[i] {
            return false;
        }
        i = i + 1;
    }
    proof {
        assert(a@ =~= b@);
    }
    true
}

/// Copy a byte string.
pub(crate) fn copy_bytes(v: &Vec<u8>) -> (r: Vec<u8>)
    ensures
        r@ == v@,
{
    let mut r: Vec<u8> = Vec::new();
    let n = v.len();
    let mut i: usize = 0;
    while i < n
        invariant
            n == v@.len(),
            0 <= i <= n,
            r@ == v@.take(i as int),
        decreases n - i,
    {
        r.push(v[i]);
        proof {
            assert(v@.take(i as int).push(v@[i as int]) =~= v@.take(i as int + 1));
        }
        i = i + 1;
    }
    proof {
        assert(v@.take(n as int) =~= v@);
    }
    r
}

/// A store of records of one shape, addressed under one domain-separation
/// tag, with one allocation reserve per record.
pub struct Ledger {
    shape: Shape,
    tag: Vec<u8>,
    fee_per_byte: u64,
    max_size: usize,
    reserve: u64,
    accounts: Vec<Entry>,
}

/// The outcome of `create` on the mathematical model: the map of records
/// after the call, and the result — the new address and the change
/// returned to the payer, or the exact error. `create` fails, in this
/// order, with `AddressSpaceExhausted` where no address exists for the
/// key, `AlreadyExists` on a present record, the payload's first bound
/// violation, and `InsufficientFunds` where the offered funds do not cover
/// the reserve plus the custody amount.
pub open spec fn create_spec(
    shape: ShapeV,
    tag: Seq<u8>,
    reserve: u64,
    pre: Map<Seq<u8>, Rec>,
    natural_key: Seq<u8>,
    owner: Seq<u8>,
    p: PayloadV,
    funds: u64,
    custody: u64,
) -> (Map<Seq<u8>, Rec>, Result<(Seq<u8>, u64), StoreError>) {
    match derived_address(natural_key, owner, tag) {
        None => (pre, Err(StoreError::AddressSpaceExhausted)),
        Some(an) => {
            if pre.contains_key(an.0) {
                (pre, Err(StoreError::AlreadyExists))
            } else {
                match first_violation(shape, p) {
                    Some(e) => (pre, Err(StoreError::Validation { err: e })),
                    None => {
                        if (funds as int) < reserve + custody {
                            (pre, Err(StoreError::InsufficientFunds))
                        } else {
                            let rec = Rec {
                                nonce: an.1,
                                owner: owner,
                                natural_key: natural_key,
                                texts: p.texts,
                                scalars: p.scalars,
                                storage_size: record_size(shape, p),
                                custodied: custody,
                                lamports: (reserve + custody) as u64,
                            };
                            (
                                pre.insert(an.0, rec),
                                Ok((an.0, (funds - reserve - custody) as u64)),
                            )
                        }
                    },
                }
            }
        },
    }
}

/// The outcome of `update` on the mathematical model: owner and natural
/// key never change; the payload fields are overwritten and the storage
/// size is recomputed to exactly fit the new payload. `update` fails, in
/// this order, with `AddressSpaceExhausted`, `NotFound` on an absent
/// record, `Unauthorized` for a caller other than the stored owner, and
/// the payload's first bound violation.
pub open spec fn update_spec(
    shape: ShapeV,
    tag: Seq<u8>,
    pre: Map<Seq<u8>, Rec>,
    natural_key: Seq<u8>,
    owner: Seq<u8>,
    caller: Seq<u8>,
    p: PayloadV,
) -> (Map<Seq<u8>, Rec>, Result<(), StoreError>) {
    match derived_address(natural_key, owner, tag) {
        None => (pre, Err(StoreError::AddressSpaceExhausted)),
        Some(an) => {
            if !pre.contains_key(an.0) {
                (pre, Err(StoreError::NotFound))
            } else if pre[an.0].owner != caller {
                (pre, Err(StoreError::Unauthorized))
            } else {
                match first_violation(shape, p) {
                    Some(e) => (pre, Err(StoreError::Validation { err: e })),
                    None => {
                        let old_rec = pre[an.0];
                        let rec = Rec {
                            nonce: old_rec.nonce,
                            owner: old_rec.owner,
                            natural_key: old_rec.natural_key,
                            texts: p.texts,
                            scalars: p.scalars,
                            storage_size: record_size(shape, p),
                            custodied: old_rec.custodied,
                            lamports: old_rec.lamports,
                        };
                        (pre.insert(an.0, rec), Ok(()))
                    },
                }
            }
        },
    }
}

/// The outcome of `delete` on the mathematical model: the record is
/// removed, its address becomes available for a fresh `create`, and all
/// funds backing it are reclaimed for the designated recipient. `delete`
/// fails, in this order, with `AddressSpaceExhausted`, `NotFound` on an
/// absent record, and `Unauthorized` for a caller other than the stored
/// owner.
pub open spec fn delete_spec(
    tag: Seq<u8>,
    pre: Map<Seq<u8>, Rec>,
    natural_key: Seq<u8>,
    owner: Seq<u8>,
    caller: Seq<u8>,
) -> (Map<Seq<u8>, Rec>, Result<u64, StoreError>) {
    match derived_address(natural_key, owner, tag) {
        None => (pre, Err(StoreError::AddressSpaceExhausted)),
        Some(an) => {
            if !pre.contains_key(an.0) {
                (pre, Err(StoreError::NotFound))
            } else if pre[an.0].owner != caller {
                (pre, Err(StoreError::Unauthorized))
            } else {
                (pre.remove(an.0), Ok(pre[an.0].lamports))
            }
        },
    }
}

/// The record stored for `(natural_key, owner)`, if any.
pub open spec fn lookup_spec(
    tag: Seq<u8>,
    m: Map<Seq<u8>, Rec>,
    natural_key: Seq<u8>,
    owner: Seq<u8>,
) -> Option<Rec> {
    match derived_address(natural_key, owner, tag) {
        None => None,
        Some(an) => if m.contains_key(an.0) {
            Some(m[an.0])
        } else {
            None
        },
    }
}

/// The mathematical value of a created address and change, or the error.
pub open spec fn view_created(r: Result<(Vec<u8>, u64), StoreError>) -> Result<
    (Seq<u8>, u64),
    StoreError,
> {
    match r {
        Ok(p) => Ok((p.0@, p.1)),
        Err(e) => Err(e),
    }
}

impl Ledger {
    /// The shape every record of this store obeys.
    pub closed spec fn shape_v(self) -> ShapeV {
        self.shape@
    }

    /// The domain-separation tag addresses are derived under.
    pub closed spec fn tag_v(self) -> Seq<u8> {
        self.tag@
    }

    /// The one-time allocation reserve charged per record, computed from
    /// the shape's declared maxima.
    pub closed spec fn reserve_amount(self) -> u64 {
        self.reserve
    }

    /// The records this store holds, by address.
    pub closed spec fn records(self) -> Map<Seq<u8>, Rec> {
        map_of(self.accounts@)
    }

    spec fn entry_wf(self, e: Entry) -> bool {
        &&& arity_matches(self.shape@, rec_payload(e.rec()))
        &&& payload_valid(self.shape@, rec_payload(e.rec()))
        &&& e.storage_size as int == record_size(self.shape@, rec_payload(e.rec()))
        &&& e.lamports as int == self.reserve as int + e.custodied as int
        &&& derived_address(e.natural_key@, e.owner@, self.tag@) == Some((e.address@, e.nonce))
    }

    /// The store's invariant: the tag and the shape are well formed, the
    /// reserve matches the declared maxima, addresses are distinct, and
    /// every record obeys its shape, has its storage sized exactly to its
    /// payload, is backed by reserve plus custodied funds, and lives at
    /// the address its key derives.
    pub closed spec fn wf(self) -> bool {
        &&& self.tag@.len() == 32
        &&& shape_wf(self.shape@)
        &&& self.max_size as int == max_record_size(self.shape@)
        &&& self.reserve as int == self.fee_per_byte as int * max_record_size(self.shape@)
        &&& unique_addresses(self.accounts@)
        &&& forall|i: int|
            0 <= i < self.accounts@.len() ==> self.entry_wf(#[trigger] self.accounts@[i])
    }

    /// What the invariant promises of every stored record: its payload
    /// obeys the shape, its storage size exactly fits its payload, its
    /// backing funds are the reserve plus its custodied amount, and its
    /// stored key derives its address.
    pub proof fn lemma_wf_record(self, addr: Seq<u8>)
        requires
            self.wf(),
            self.records().contains_key(addr),
        ensures
            arity_matches(self.shape_v(), rec_payload(self.records()[addr])),
            payload_valid(self.shape_v(), rec_payload(self.records()[addr])),
            self.records()[addr].storage_size == record_size(
                self.shape_v(),
                rec_payload(self.records()[addr]),
            ),
            self.records()[addr].lamports as int == self.reserve_amount() as int
                + self.records()[addr].custodied as int,
            derived_address(
                self.records()[addr].natural_key,
                self.records()[addr].owner,
                self.tag_v(),
            ) == Some((addr, self.records()[addr].nonce)),
    {
        lemma_map_of_contains(self.accounts@, addr);
        let i = choose|i: int| 0 <= i < self.accounts@.len() && self.accounts@[i].address@ == addr;
        lemma_map_of_index(self.accounts@, i);
        assert(self.entry_wf(self.accounts@[i]));
    }

    /// Find the index of the entry at this address.
    fn find_index(&self, addr: &Vec<u8>) -> (r: Option<usize>)
        ensures
            r matches Some(i) ==> i < self.accounts@.len() && self.accounts@[i as int].address@
                == addr@,
            r is None ==> forall|j: int|
                0 <= j < self.accounts@.len() ==> self.accounts@[j].address@ != addr@,
    {
        let n = self.accounts.len();
        let mut i: usize = 0;
        while i < n
            invariant
                n == self.accounts@.len(),
                0 <= i <= n,
                forall|j: int| 0 <= j < i ==> self.accounts@[j].address@ != addr@,
            decreases n - i,
        {
            if bytes_eq(&self.accounts[i].address, addr) {
                return Some(i);
            }
            i = i + 1;
        }
        None
    }

    /// Open a store for records of this shape under this tag, charging
    /// `fee_per_byte` of reserve per byte of the shape's maximum size.
    /// Fails exactly where the tag is not an identity, the shape is
    /// malformed, or the maximum size or the reserve does not fit the
    /// machine.
    pub fn new(shape: Shape, tag: Vec<u8>, fee_per_byte: u64) -> (r: Option<Ledger>)
        ensures
            r matches Some(l) ==> l.wf() && l.shape_v() == shape@ && l.tag_v() == tag@
                && l.reserve_amount() as int == fee_per_byte as int * max_record_size(shape@)
                && l.records() == Map::<Seq<u8>, Rec>::empty(),
            r is None ==> !(tag@.len() == 32 && shape_wf(shape@) && max_record_size(shape@)
                <= usize::MAX && fee_per_byte as int * max_record_size(shape@) <= u64::MAX),
    {
        if tag.len() != 32 {
            return None;
        }
        let n_scalars = shape.scalars.len();
        let mut i: usize = 0;
        while i < n_scalars
            invariant
                n_scalars == shape@.scalars.len(),
                0 <= i <= n_scalars,
                forall|j: int| 0 <= j < i ==> shape@.scalars[j].min <= shape@.scalars[j].max,
            decreases n_scalars - i,
        {
            let field = shape.scalars[i];
            if field.min > field.max {
                return None;
            }
            i = i + 1;
        }
        let ms = match max_size(&shape) {
            Some(ms) => ms,
            None => {
                return None;
            },
        };
        proof {
            let f: int = fee_per_byte as int;
            let m: int = ms as int;
            assert(f * m <= u64::MAX as int * u64::MAX as int) by (nonlinear_arith)
                requires
                    0 <= f <= u64::MAX as int,
                    0 <= m <= u64::MAX as int,
            ;
            assert(u64::MAX as int * u64::MAX as int <= u128::MAX as int);
        }
        let need: u128 = (fee_per_byte as u128) * (ms as u128);
        if need > u64::MAX as u128 {
            return None;
        }
        Some(
            Ledger {
                shape,
                tag,
                fee_per_byte,
                max_size: ms,
                reserve: need as u64,
                accounts: Vec::new(),
            },
        )
    }

    /// The allocation reserve one record of this store is backed by.
    pub fn reserve(&self) -> (r: u64)
        ensures
            r == self.reserve_amount(),
    {
        self.reserve
    }

    /// The domain-separation tag of this store.
    pub fn tag(&self) -> (r: &Vec<u8>)
        ensures
            r@ == self.tag_v(),
            self.wf() ==> r@.len() == 32,
    {
        &self.tag
    }

    /// Create the record keyed by `(natural_key, owner)`, also placing
    /// `custody` funds behind it beyond the reserve.
    pub(crate) fn create_with_custody(
        &mut self,
        natural_key: &Vec<u8>,
        owner: &Vec<u8>,
        payload: Payload,
        funds: u64,
        custody: u64,
    ) -> (r: Result<(Vec<u8>, u64), StoreError>)
        requires
            old(self).wf(),
            arity_matches(old(self).shape_v(), payload@),
        ensures
            final(self).wf(),
            final(self).shape_v() == old(self).shape_v(),
            final(self).tag_v() == old(self).tag_v(),
            final(self).reserve_amount() == old(self).reserve_amount(),
            final(self).records() == create_spec(
                old(self).shape_v(),
                old(self).tag_v(),
                old(self).reserve_amount(),
                old(self).records(),
                natural_key@,
                owner@,
                payload@,
                funds,
                custody,
            ).0,
            view_created(r) == create_spec(
                old(self).shape_v(),
                old(self).tag_v(),
                old(self).reserve_amount(),
                old(self).records(),
                natural_key@,
                owner@,
                payload@,
                funds,
                custody,
            ).1,
    {
        let ghost p_v = payload@;
        let (addr, nonce) = match derive_address(natural_key, owner, &self.tag) {
            Ok(p) => p,
            Err(e) => {
                return Err(e);
            },
        };
        match self.find_index(&addr) {
            Some(_) => {
                proof {
                    lemma_map_of_contains(self.accounts@, addr@);
                }
                return Err(StoreError::AlreadyExists);
            },
            None => {
                proof {
                    lemma_map_of_contains(self.accounts@, addr@);
                }
            },
        }
        match validate(&self.shape, &payload) {
            Err(e) => {
                return Err(StoreError::Validation { err: e });
            },
            Ok(_) => {},
        }
        let need: u128 = (self.reserve as u128) + (custody as u128);
        if (funds as u128) < need {
            return Err(StoreError::InsufficientFunds);
        }
        let lamports = self.reserve + custody;
        let size = match payload_size(&self.shape, &payload) {
            Some(s) => s,
            None => {
                proof {
                    crate::shape::lemma_record_size_le_max(self.shape@, p_v);
                }
                0
            },
        };
        let entry = Entry {
            address: copy_bytes(&addr),
            nonce,
            owner: copy_bytes(owner),
            natural_key: copy_bytes(natural_key),
            texts: payload.texts,
            scalars: payload.scalars,
            storage_size: size,
            custodied: custody,
            lamports,
        };
        proof {
            lemma_map_of_push(self.accounts@, entry);
        }
        self.accounts.push(entry);
        let change = funds - self.reserve - custody;
        Ok((addr, change))
    }

    /// Create the record keyed by `(natural_key, owner)` with this
    /// payload, drawing the one-time allocation reserve from `funds`.
    /// Returns the new record's address and the change. The outcome is
    /// exactly [`create_spec`] on the store's records.
    pub fn create(
        &mut self,
        natural_key: &Vec<u8>,
        owner: &Vec<u8>,
        payload: Payload,
        funds: u64,
    ) -> (r: Result<(Vec<u8>, u64), StoreError>)
        requires
            old(self).wf(),
            arity_matches(old(self).shape_v(), payload@),
        ensures
            final(self).wf(),
            final(self).shape_v() == old(self).shape_v(),
            final(self).tag_v() == old(self).tag_v(),
            final(self).reserve_amount() == old(self).reserve_amount(),
            final(self).records() == create_spec(
                old(self).shape_v(),
                old(self).tag_v(),
                old(self).reserve_amount(),
                old(self).records(),
                natural_key@,
                owner@,
                payload@,
                funds,
                0,
            ).0,
            view_created(r) == create_spec(
                old(self).shape_v(),
                old(self).tag_v(),
                old(self).reserve_amount(),
                old(self).records(),
                natural_key@,
                owner@,
                payload@,
                funds,
                0,
            ).1,
    {
        self.create_with_custody(natural_key, owner, payload, funds, 0)
    }

    /// Overwrite the payload of the record keyed by `(natural_key, owner)`
    /// on behalf of `caller`, resizing its storage to exactly fit the new
    /// payload; no byte of the previous payload stays readable. Owner and
    /// natural key never change. The outcome is exactly [`update_spec`] on
    /// the store's records; in particular the store is unchanged on every
    /// error.
    pub fn update(
        &mut self,
        natural_key: &Vec<u8>,
        owner: &Vec<u8>,
        caller: &Vec<u8>,
        payload: Payload,
    ) -> (r: Result<(), StoreError>)
        requires
            old(self).wf(),
            arity_matches(old(self).shape_v(), payload@),
        ensures
            final(self).wf(),
            final(self).shape_v() == old(self).shape_v(),
            final(self).tag_v() == old(self).tag_v(),
            final(self).reserve_amount() == old(self).reserve_amount(),
            final(self).records() == update_spec(
                old(self).shape_v(),
                old(self).tag_v(),
                old(self).records(),
                natural_key@,
                owner@,
                caller@,
                payload@,
            ).0,
            r == update_spec(
                old(self).shape_v(),
                old(self).tag_v(),
                old(self).records(),
                natural_key@,
                owner@,
                caller@,
                payload@,
            ).1,
    {
        let ghost p_v = payload@;
        let (addr, _nonce) = match derive_address(natural_key, owner, &self.tag) {
            Ok(p) => p,
            Err(e) => {
                return Err(e);
            },
        };
        let i = match self.find_index(&addr) {
            Some(i) => {
                proof {
                    lemma_map_of_contains(self.accounts@, addr@);
                }
                i
            },
            None => {
                proof {
                    lemma_map_of_contains(self.accounts@, addr@);
                }
                return Err(StoreError::NotFound);
            },
        };
        proof {
            lemma_map_of_index(self.accounts@, i as int);
        }
        if !bytes_eq(&self.accounts[i].owner, caller) {
            return Err(StoreError::Unauthorized);
        }
        match validate(&self.shape, &payload) {
            Err(e) => {
                return Err(StoreError::Validation { err: e });
            },
            Ok(_) => {},
        }
        let size = match payload_size(&self.shape, &payload) {
            Some(s) => s,
            None => {
                proof {
                    crate::shape::lemma_record_size_le_max(self.shape@, p_v);
                }
                0
            },
        };
        let ghost entries0 = self.accounts@;
        proof {
            assert(old(self).entry_wf(entries0[i as int]));
        }
        let mut e = self.accounts.remove(i);
        proof {
            lemma_unique_remove(entries0, i as int);
            lemma_map_of_remove(entries0, i as int);
        }
        e.texts = payload.texts;
        e.scalars = payload.scalars;
        e.storage_size = size;
        proof {
            lemma_map_of_push(self.accounts@, e);
        }
        self.accounts.push(e);
        proof {
            let pre = map_of(entries0);
            assert(pre.remove(addr@).insert(addr@, e.rec()) =~= pre.insert(addr@, e.rec()));
            assert(rec_payload(e.rec()) == p_v);
            assert forall|j: int|
                0 <= j < self.accounts@.len() implies self.entry_wf(
                #[trigger] self.accounts@[j],
            ) by {
                if j == self.accounts@.len() - 1 {
                    assert(self.accounts@[j] == e);
                } else {
                    let j0: int = if j < i {
                        j
                    } else {
                        j + 1
                    };
                    assert(self.accounts@[j] == entries0.remove(i as int)[j]);
                    assert(entries0.remove(i as int)[j] == entries0[j0]);
                    assert(old(self).entry_wf(entries0[j0]));
                }
            }
        }
        Ok(())
    }

    /// Delete the record keyed by `(natural_key, owner)` on behalf of
    /// `caller`, reclaiming its storage. Returns all funds that backed the
    /// record — the reserve plus any custodied amount — for the designated
    /// recipient; the address is free for a fresh `create` afterwards. The
    /// outcome is exactly [`delete_spec`] on the store's records; in
    /// particular the store is unchanged on every error.
    pub fn delete(&mut self, natural_key: &Vec<u8>, owner: &Vec<u8>, caller: &Vec<u8>) -> (r:
        Result<u64, StoreError>)
        requires
            old(self).wf(),
        ensures
            final(self).wf(),
            final(self).shape_v() == old(self).shape_v(),
            final(self).tag_v() == old(self).tag_v(),
            final(self).reserve_amount() == old(self).reserve_amount(),
            final(self).records() == delete_spec(
                old(self).tag_v(),
                old(self).records(),
                natural_key@,
                owner@,
                caller@,
            ).0,
            r == delete_spec(
                old(self).tag_v(),
                old(self).records(),
                natural_key@,
                owner@,
                caller@,
            ).1,
    {
        let (addr, _nonce) = match derive_address(natural_key, owner, &self.tag) {
            Ok(p) => p,
            Err(e) => {
                return Err(e);
            },
        };
        let i = match self.find_index(&addr) {
            Some(i) => {
                proof {
                    lemma_map_of_contains(self.accounts@, addr@);
                }
                i
            },
            None => {
                proof {
                    lemma_map_of_contains(self.accounts@, addr@);
                }
                return Err(StoreError::NotFound);
            },
        };
        proof {
            lemma_map_of_index(self.accounts@, i as int);
        }
        if !bytes_eq(&self.accounts[i].owner, caller) {
            return Err(StoreError::Unauthorized);
        }
        let ghost entries0 = self.accounts@;
        let e = self.accounts.remove(i);
        proof {
            lemma_unique_remove(entries0, i as int);
            lemma_map_of_remove(entries0, i as int);
            assert forall|j: int|
                0 <= j < self.accounts@.len() implies self.entry_wf(
                #[trigger] self.accounts@[j],
            ) by {
                let j0: int = if j < i {
                    j
                } else {
                    j + 1
                };
                assert(self.accounts@[j] == entries0[j0]);
                assert(old(self).entry_wf(entries0[j0]));
            }
        }
        Ok(e.lamports)
    }

    /// The record stored for `(natural_key, owner)`, if any. The outcome
    /// is exactly [`lookup_spec`] on the store's records.
    pub fn get(&self, natural_key: &Vec<u8>, owner: &Vec<u8>) -> (r: Option<&Entry>)
        requires
            self.wf(),
        ensures
            r matches Some(e) ==> lookup_spec(self.tag_v(), self.records(), natural_key@, owner@)
                == Some(e.rec()),
            r is None ==> lookup_spec(self.tag_v(), self.records(), natural_key@, owner@) is None,
    {
        let (addr, _nonce) = match derive_address(natural_key, owner, &self.tag) {
            Ok(p) => p,
            Err(_) => {
                return None;
            },
        };
        match self.find_index(&addr) {
            Some(i) => {
                proof {
                    lemma_map_of_index(self.accounts@, i as int);
                }
                Some(&self.accounts[i])
            },
            None => {
                proof {
                    lemma_map_of_contains(self.accounts@, addr@);
                }
                None
            },
        }
    }
}

/// Law: `create` does not overwrite. After a successful `create`, a
/// second `create` with the same natural key and owner fails with
/// `AlreadyExists` and leaves the store unchanged, whatever payload,
/// funds or custody the second call offers.
pub proof fn lemma_no_double_create(
    shape: ShapeV,
    tag: Seq<u8>,
    reserve: u64,
    pre: Map<Seq<u8>, Rec>,
    natural_key: Seq<u8>,
    owner: Seq<u8>,
    p1: PayloadV,
    funds1: u64,
    custody1: u64,
    p2: PayloadV,
    funds2: u64,
    custody2: u64,
)
    requires
        create_spec(shape, tag, reserve, pre, natural_key, owner, p1, funds1, custody1).1 is Ok,
    ensures
        ({
            let mid = create_spec(shape, tag, reserve, pre, natural_key, owner, p1, funds1, custody1).0;
            let second = create_spec(shape, tag, reserve, mid, natural_key, owner, p2, funds2, custody2);
            second.0 == mid && second.1 == Err::<(Seq<u8>, u64), StoreError>(
                StoreError::AlreadyExists,
            )
        }),
{
}

/// Law: mutation requires existence. Where no record lives at the address
/// derived from `(natural_key, owner)` — no `create` has run, or `delete`
/// has reclaimed it — `update` and `delete` fail with `NotFound` and
/// change nothing.
pub proof fn lemma_mutation_requires_existence(
    shape: ShapeV,
    tag: Seq<u8>,
    pre: Map<Seq<u8>, Rec>,
    natural_key: Seq<u8>,
    owner: Seq<u8>,
    caller: Seq<u8>,
    p: PayloadV,
)
    requires
        derived_address(natural_key, owner, tag) matches Some(an) && !pre.contains_key(an.0),
    ensures
        update_spec(shape, tag, pre, natural_key, owner, caller, p) == (
            pre,
            Err::<(), StoreError>(StoreError::NotFound),
        ),
        delete_spec(tag, pre, natural_key, owner, caller) == (
            pre,
            Err::<u64, StoreError>(StoreError::NotFound),
        ),
{
}

/// Law: mutation requires authorization. A caller other than the stored
/// owner cannot `update` or `delete` a record: both fail with
/// `Unauthorized` and leave the record — and the whole store — unchanged.
pub proof fn lemma_mutation_requires_authorization(
    shape: ShapeV,
    tag: Seq<u8>,
    pre: Map<Seq<u8>, Rec>,
    natural_key: Seq<u8>,
    owner: Seq<u8>,
    caller: Seq<u8>,
    p: PayloadV,
)
    requires
        derived_address(natural_key, owner, tag) matches Some(an) && pre.contains_key(an.0)
            && pre[an.0].owner != caller,
    ensures
        update_spec(shape, tag, pre, natural_key, owner, caller, p) == (
            pre,
            Err::<(), StoreError>(StoreError::Unauthorized),
        ),
        delete_spec(tag, pre, natural_key, owner, caller) == (
            pre,
            Err::<u64, StoreError>(StoreError::Unauthorized),
        ),
{
}

/// Law: an address is reusable after delete. Once `delete` succeeds, a
/// `create` with the same natural key and owner succeeds — given a valid
/// payload and sufficient funds — and yields a fresh record holding
/// exactly the new payload, with nothing of the deleted instance left.
pub proof fn lemma_reuse_after_delete(
    shape: ShapeV,
    tag: Seq<u8>,
    reserve: u64,
    pre: Map<Seq<u8>, Rec>,
    natural_key: Seq<u8>,
    owner: Seq<u8>,
    caller: Seq<u8>,
    p2: PayloadV,
    funds2: u64,
    custody2: u64,
)
    requires
        delete_spec(tag, pre, natural_key, owner, caller).1 is Ok,
        first_violation(shape, p2) is None,
        funds2 as int >= reserve + custody2,
    ensures
        ({
            let mid = delete_spec(tag, pre, natural_key, owner, caller).0;
            let after = create_spec(shape, tag, reserve, mid, natural_key, owner, p2, funds2, custody2);
            let addr = derived_address(natural_key, owner, tag)->Some_0.0;
            &&& after.1 is Ok
            &&& after.0[addr].texts == p2.texts
            &&& after.0[addr].scalars == p2.scalars
            &&& after.0[addr].custodied == custody2
            &&& after.0[addr].owner == owner
            &&& after.0[addr].natural_key == natural_key
        }),
{
}

} // verus!
