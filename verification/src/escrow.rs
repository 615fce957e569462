//! The escrow custody gate: at most one funded record per owner, created
//! by `deposit` — which moves funds in and records the unlock threshold —
//! and destroyed by `withdraw`, which releases the funds only once the
//! reference price reaches that threshold. There is no update operation.
//!
//! The escrow record is keyed by the owner identity alone: its natural key
//! is empty. The current reference price comes from an external price
//! source and is handed in as a plain value; its freshness and trust model
//! are outside this library.

use vstd::prelude::*;

use crate::address::{derive_address, derived_address};
use crate::error::StoreError;
use crate::shape::{max_record_size, Payload, PayloadV, ScalarField, Shape, ShapeV};
use crate::store::{
    bytes_eq, create_spec, lookup_spec, rec_payload, view_created, Ledger, Rec,
};

verus! {

/// The shape of an escrow record: no text fields and one scalar — the
/// unlock price; the custodied amount rides along as backing funds.
pub open spec fn escrow_shape_v() -> ShapeV {
    ShapeV {
        text_maxes: Seq::empty(),
        scalars: seq![ScalarField { min: 0, max: u64::MAX, width: 8 }],
    }
}

/// The payload an escrow record stores: the unlock price alone.
pub open spec fn escrow_payload_v(unlock_price: u64) -> PayloadV {
    PayloadV { texts: Seq::empty(), scalars: seq![unlock_price] }
}

/// The release rule of the custody gate: funds may leave once the current
/// reference price has risen to the recorded unlock threshold. This
/// comparison direction is the documented default of this library; a price
/// strictly below the threshold keeps the funds custodied.
pub open spec fn release_when(current_price: u64, unlock_price: u64) -> bool {
    current_price >= unlock_price
}

/// The outcome of `withdraw` on the mathematical model. It fails, in this
/// order, with `AddressSpaceExhausted` where no address exists for the
/// owner, `NotFound` while no escrow record is funded, `Unauthorized`
/// where the stored owner is not the claimed owner, and `ConditionNotMet`
/// while the reference price is below the unlock threshold. On success the
/// record becomes absent and every unit backing it — the escrow amount
/// plus the reclaimed reserve — is paid out to the owner.
pub open spec fn withdraw_spec(
    tag: Seq<u8>,
    pre: Map<Seq<u8>, Rec>,
    owner: Seq<u8>,
    current_price: u64,
) -> (Map<Seq<u8>, Rec>, Result<u64, StoreError>) {
    match derived_address(Seq::<u8>::empty(), owner, tag) {
        None => (pre, Err(StoreError::AddressSpaceExhausted)),
        Some(an) => {
            if !pre.contains_key(an.0) {
                (pre, Err(StoreError::NotFound))
            } else if pre[an.0].owner != owner {
                (pre, Err(StoreError::Unauthorized))
            } else if !release_when(current_price, pre[an.0].scalars[0]) {
                (pre, Err(StoreError::ConditionNotMet))
            } else {
                (pre.remove(an.0), Ok(pre[an.0].lamports))
            }
        },
    }
}

/// A custody gate holding at most one funded escrow record per owner.
pub struct Escrow {
    ledger: Ledger,
}

impl Escrow {
    /// Invariant of the custody gate: the underlying store is well formed and its
    /// records have the escrow shape.
    pub closed spec fn wf(self) -> bool {
        &&& self.ledger.wf()
        &&& self.ledger.shape_v() == escrow_shape_v()
    }

    /// The escrow records this gate holds, by address.
    pub closed spec fn records(self) -> Map<Seq<u8>, Rec> {
        self.ledger.records()
    }

    /// The domain-separation tag escrow addresses are derived under.
    pub closed spec fn tag_v(self) -> Seq<u8> {
        self.ledger.tag_v()
    }

    /// The one-time allocation reserve charged per escrow record.
    pub closed spec fn reserve_amount(self) -> u64 {
        self.ledger.reserve_amount()
    }

    /// Open an escrow gate under this tag, charging `fee_per_byte` of
    /// reserve per byte of the escrow record's size. Fails exactly where
    /// the tag is not an identity or the reserve does not fit.
    pub fn new(tag: Vec<u8>, fee_per_byte: u64) -> (r: Option<Escrow>)
        ensures
            r matches Some(g) ==> g.wf() && g.tag_v() == tag@ && g.reserve_amount() as int
                == fee_per_byte as int * max_record_size(escrow_shape_v()) && g.records()
                == Map::<Seq<u8>, Rec>::empty(),
            r is None ==> !(tag@.len() == 32 && fee_per_byte as int * max_record_size(
                escrow_shape_v(),
            ) <= u64::MAX),
    {
        let text_maxes: Vec<usize> = Vec::new();
        let mut scalars: Vec<ScalarField> = Vec::new();
        scalars.push(ScalarField { min: 0, max: u64::MAX, width: 8 });
        let shape = Shape { text_maxes, scalars };
        proof {
            assert(shape@.text_maxes =~= escrow_shape_v().text_maxes);
            assert(shape@.scalars =~= escrow_shape_v().scalars);
            let fields = escrow_shape_v().scalars;
            assert(fields.drop_last() =~= Seq::<ScalarField>::empty());
            assert(crate::shape::scalar_region_size(Seq::<ScalarField>::empty()) == 0);
            assert(crate::shape::scalar_region_size(fields.drop_last()) == 0);
            assert(fields.last().width == 8);
            assert(crate::shape::scalar_region_size(fields) == 8);
            assert(max_record_size(escrow_shape_v()) == 48);
        }
        match Ledger::new(shape, tag, fee_per_byte) {
            Some(l) => Some(Escrow { ledger: l }),
            None => None,
        }
    }

    /// The allocation reserve one escrow record is backed by.
    pub fn reserve(&self) -> (r: u64)
        ensures
            r == self.reserve_amount(),
    {
        self.ledger.reserve()
    }

    /// Move `escrow_amount` into a new escrow record for `owner` and
    /// record the unlock price. `funds` is what the owner offers; it must
    /// cover the allocation reserve plus the escrow amount, and the change
    /// is returned beside the record's address. Fails with `AlreadyExists`
    /// while a record for `owner` is funded, and with `InsufficientFunds`
    /// where `funds` cannot cover the move — atomically: no record is left
    /// behind. The outcome is exactly [`create_spec`] with the escrow
    /// amount as custody.
    pub fn deposit(
        &mut self,
        owner: &Vec<u8>,
        escrow_amount: u64,
        unlock_price: u64,
        funds: u64,
    ) -> (r: Result<(Vec<u8>, u64), StoreError>)
        requires
            old(self).wf(),
        ensures
            final(self).wf(),
            final(self).tag_v() == old(self).tag_v(),
            final(self).reserve_amount() == old(self).reserve_amount(),
            final(self).records() == create_spec(
                escrow_shape_v(),
                old(self).tag_v(),
                old(self).reserve_amount(),
                old(self).records(),
                Seq::<u8>::empty(),
                owner@,
                escrow_payload_v(unlock_price),
                funds,
                escrow_amount,
            ).0,
            view_created(r) == create_spec(
                escrow_shape_v(),
                old(self).tag_v(),
                old(self).reserve_amount(),
                old(self).records(),
                Seq::<u8>::empty(),
                owner@,
                escrow_payload_v(unlock_price),
                funds,
                escrow_amount,
            ).1,
    {
        let empty_key: Vec<u8> = Vec::new();
        let texts: Vec<Vec<u8>> = Vec::new();
        let mut scalars: Vec<u64> = Vec::new();
        scalars.push(unlock_price);
        let payload = Payload { texts, scalars };
        proof {
            assert(payload@.texts =~= escrow_payload_v(unlock_price).texts);
            assert(payload@.scalars =~= escrow_payload_v(unlock_price).scalars);
        }
        self.ledger.create_with_custody(&empty_key, owner, payload, funds, escrow_amount)
    }

    /// Release the owner's escrow, if the unlock condition holds at the
    /// given reference price. On success the record becomes absent and the
    /// payout — the escrow amount plus the reclaimed reserve — is
    /// returned for the owner. The outcome is exactly [`withdraw_spec`];
    /// in particular, on every error the record and its funds stay exactly
    /// as they were.
    pub fn withdraw(&mut self, owner: &Vec<u8>, current_price: u64) -> (r: Result<u64, StoreError>)
        requires
            old(self).wf(),
        ensures
            final(self).wf(),
            final(self).tag_v() == old(self).tag_v(),
            final(self).reserve_amount() == old(self).reserve_amount(),
            final(self).records() == withdraw_spec(
                old(self).tag_v(),
                old(self).records(),
                owner@,
                current_price,
            ).0,
            r == withdraw_spec(old(self).tag_v(), old(self).records(), owner@, current_price).1,
    {
        let empty_key: Vec<u8> = Vec::new();
        match self.ledger.get(&empty_key, owner) {
            None => {
                match derive_address(&empty_key, owner, self.ledger.tag()) {
                    Err(e) => {
                        return Err(e);
                    },
                    Ok(_) => {
                        return Err(StoreError::NotFound);
                    },
                }
            },
            Some(e) => {
                if !bytes_eq(&e.owner, owner) {
                    return Err(StoreError::Unauthorized);
                }
                proof {
                    let an = derived_address(Seq::<u8>::empty(), owner@, self.ledger.tag_v());
                    self.ledger.lemma_wf_record(an->Some_0.0);
                    assert(rec_payload(self.ledger.records()[an->Some_0.0]).scalars.len() == 1);
                }
                let unlock = e.scalars[0];
                if current_price < unlock {
                    return Err(StoreError::ConditionNotMet);
                }
            },
        }
        match self.ledger.delete(&empty_key, owner, owner) {
            Ok(payout) => Ok(payout),
            Err(e) => {
                proof {
                    assert(false);
                }
                Err(e)
            },
        }
    }

    /// The unlock price and the custodied amount of the owner's escrow
    /// record, while one is funded.
    pub fn escrow_of(&self, owner: &Vec<u8>) -> (r: Option<(u64, u64)>)
        requires
            self.wf(),
        ensures
            r matches Some(p) ==> lookup_spec(
                self.tag_v(),
                self.records(),
                Seq::<u8>::empty(),
                owner@,
            ) matches Some(rec) && p.0 == rec.scalars[0] && p.1 == rec.custodied,
            r is None ==> lookup_spec(self.tag_v(), self.records(), Seq::<u8>::empty(), owner@)
                is None,
    {
        let empty_key: Vec<u8> = Vec::new();
        match self.ledger.get(&empty_key, owner) {
            None => None,
            Some(e) => {
                proof {
                    let an = derived_address(Seq::<u8>::empty(), owner@, self.ledger.tag_v());
                    self.ledger.lemma_wf_record(an->Some_0.0);
                    assert(rec_payload(self.ledger.records()[an->Some_0.0]).scalars.len() == 1);
                }
                Some((e.scalars[0], e.custodied))
            },
        }
    }
}

/// Law: escrow custody. From the moment a deposit succeeds, the record
/// holds the full escrow amount. A withdraw at a price below the unlock
/// threshold fails with `ConditionNotMet` and changes nothing — the funds
/// stay custodied — while a withdraw at a price at or above the threshold
/// pays out exactly the escrow amount plus the reclaimed reserve and
/// leaves the record absent. A withdraw may thus succeed at most once.
pub proof fn lemma_escrow_custody(
    tag: Seq<u8>,
    reserve: u64,
    pre: Map<Seq<u8>, Rec>,
    owner: Seq<u8>,
    escrow_amount: u64,
    unlock_price: u64,
    funds: u64,
    current_price: u64,
)
    requires
        create_spec(
            escrow_shape_v(),
            tag,
            reserve,
            pre,
            Seq::<u8>::empty(),
            owner,
            escrow_payload_v(unlock_price),
            funds,
            escrow_amount,
        ).1 is Ok,
    ensures
        ({
            let mid = create_spec(
                escrow_shape_v(),
                tag,
                reserve,
                pre,
                Seq::<u8>::empty(),
                owner,
                escrow_payload_v(unlock_price),
                funds,
                escrow_amount,
            ).0;
            let addr = derived_address(Seq::<u8>::empty(), owner, tag)->Some_0.0;
            let w = withdraw_spec(tag, mid, owner, current_price);
            &&& mid.contains_key(addr)
            &&& mid[addr].custodied == escrow_amount
            &&& mid[addr].lamports >= escrow_amount
            &&& mid[addr].scalars[0] == unlock_price
            &&& !release_when(current_price, unlock_price) ==> w == (
                mid,
                Err::<u64, StoreError>(StoreError::ConditionNotMet),
            )
            &&& release_when(current_price, unlock_price) ==> w.1 == Ok::<u64, StoreError>(
                (reserve + escrow_amount) as u64,
            ) && w.0 == mid.remove(addr) && !w.0.contains_key(addr)
        }),
{
}

} // verus!
