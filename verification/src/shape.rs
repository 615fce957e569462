//! Record shapes and payload validation.
//!
//! A [`Shape`] describes one kind of record: the declared maximum length
//! of each bounded text field, and the inclusive domain and storage width
//! of each scalar field.
//! A [`Payload`] is a proposed value for such a record. The validator
//! checks a payload against its shape field by field, scalars first, and
//! reports the first violation; the size functions give the storage a
//! record of the shape needs, both at its declared maxima and at a
//! payload's actual lengths.

use vstd::prelude::*;

use crate::error::ValidationError;

verus! {

/// Size in bytes of the tag that marks a stored record's type.
pub const DISCRIMINATOR_SIZE: usize = 8;

/// Size in bytes of a stored owner identity.
pub const OWNER_IDENTITY_SIZE: usize = 32;

/// Size in bytes of the length prefix stored before each text field.
pub const TEXT_PREFIX_SIZE: usize = 4;

/// One scalar field of a shape: its inclusive domain and the bytes it
/// occupies in a stored record (a one-byte rating, an eight-byte amount).
#[derive(Clone, Copy)]
pub struct ScalarField {
    /// Least value the field may hold.
    pub min: u64,
    /// Greatest value the field may hold.
    pub max: u64,
    /// Bytes the field occupies in a stored record.
    pub width: usize,
}

/// The bounds that every record of one kind must obey: a maximum byte
/// length per text field and a domain and storage width per scalar field.
pub struct Shape {
    /// Maximum byte length of each bounded text field.
    pub text_maxes: Vec<usize>,
    /// The scalar fields, in storage order.
    pub scalars: Vec<ScalarField>,
}

/// A proposed record value: one byte string per text field of the shape
/// and one value per scalar field.
pub struct Payload {
    /// The bounded text fields, in the shape's order.
    pub texts: Vec<Vec<u8>>,
    /// The scalar fields, in the shape's order.
    pub scalars: Vec<u64>,
}

/// The mathematical value of a [`Shape`].
pub struct ShapeV {
    pub text_maxes: Seq<usize>,
    pub scalars: Seq<ScalarField>,
}

/// The mathematical value of a [`Payload`].
pub struct PayloadV {
    pub texts: Seq<Seq<u8>>,
    pub scalars: Seq<u64>,
}

/// The byte strings held by a vector of text fields.
pub open spec fn texts_view(texts: Vec<Vec<u8>>) -> Seq<Seq<u8>> {
    Seq::new(texts@.len(), |i: int| texts@[i]@)
}

impl View for Shape {
    type V = ShapeV;

    open spec fn view(&self) -> ShapeV {
        ShapeV { text_maxes: self.text_maxes@, scalars: self.scalars@ }
    }
}

impl View for Payload {
    type V = PayloadV;

    open spec fn view(&self) -> PayloadV {
        PayloadV { texts: texts_view(self.texts), scalars: self.scalars@ }
    }
}

/// A shape is well formed when every scalar domain is non-empty.
pub open spec fn shape_wf(s: ShapeV) -> bool {
    forall|i: int|
        0 <= i < s.scalars.len() ==> s.scalars[i].min <= s.scalars[i].max
}

/// A payload has the arity of its shape: one text per text bound and one
/// scalar per scalar domain.
pub open spec fn arity_matches(s: ShapeV, p: PayloadV) -> bool {
    &&& p.texts.len() == s.text_maxes.len()
    &&& p.scalars.len() == s.scalars.len()
}

/// One scalar lies inside its inclusive domain.
pub open spec fn scalar_ok(field: ScalarField, v: u64) -> bool {
    field.min <= v && v <= field.max
}

/// One text field respects its declared maximum length.
pub open spec fn text_ok(max: usize, t: Seq<u8>) -> bool {
    t.len() <= max
}

/// Every field of the payload respects its bound.
pub open spec fn payload_valid(s: ShapeV, p: PayloadV) -> bool {
    &&& forall|i: int| 0 <= i < p.scalars.len() ==> scalar_ok(s.scalars[i], p.scalars[i])
    &&& forall|i: int| 0 <= i < p.texts.len() ==> text_ok(s.text_maxes[i], p.texts[i])
}

/// Index of the first scalar outside its domain, if any.
pub open spec fn first_scalar_violation(bounds: Seq<ScalarField>, vals: Seq<u64>) -> Option<int>
    decreases vals.len(),
{
    if vals.len() == 0 {
        None
    } else if !scalar_ok(bounds[0], vals[0]) {
        Some(0int)
    } else {
        match first_scalar_violation(bounds.drop_first(), vals.drop_first()) {
            Some(i) => Some(i + 1),
            None => None,
        }
    }
}

/// Index of the first text longer than its maximum, if any.
pub open spec fn first_text_violation(maxes: Seq<usize>, texts: Seq<Seq<u8>>) -> Option<int>
    decreases texts.len(),
{
    if texts.len() == 0 {
        None
    } else if !text_ok(maxes[0], texts[0]) {
        Some(0int)
    } else {
        match first_text_violation(maxes.drop_first(), texts.drop_first()) {
            Some(i) => Some(i + 1),
            None => None,
        }
    }
}

/// The verdict of the validator: the first violation in field order,
/// scalars before texts, or `None` for a valid payload.
pub open spec fn first_violation(s: ShapeV, p: PayloadV) -> Option<ValidationError> {
    match first_scalar_violation(s.scalars, p.scalars) {
        Some(i) => Some(ValidationError::OutOfRange { field: i as usize }),
        None => match first_text_violation(s.text_maxes, p.texts) {
            Some(i) => Some(ValidationError::FieldTooLong { field: i as usize }),
            None => None,
        },
    }
}

proof fn lemma_first_scalar_violation(bounds: Seq<ScalarField>, vals: Seq<u64>)
    requires
        bounds.len() == vals.len(),
    ensures
        first_scalar_violation(bounds, vals) is None <==> (forall|i: int|
            0 <= i < vals.len() ==> scalar_ok(bounds[i], vals[i])),
        first_scalar_violation(bounds, vals) matches Some(i) ==> 0 <= i < vals.len() && !scalar_ok(
            bounds[i],
            vals[i],
        ) && (forall|j: int| 0 <= j < i ==> scalar_ok(bounds[j], vals[j])),
    decreases vals.len(),
{
    if vals.len() > 0 && scalar_ok(bounds[0], vals[0]) {
        let tb = bounds.drop_first();
        let tv = vals.drop_first();
        lemma_first_scalar_violation(tb, tv);
        assert(forall|i: int| 0 <= i < tv.len() ==> (tb[i] == bounds[i + 1] && tv[i] == vals[i + 1]));
        if first_scalar_violation(tb, tv) is None {
            assert forall|i: int| 0 <= i < vals.len() implies scalar_ok(bounds[i], vals[i]) by {
                if i > 0 {
                    assert(scalar_ok(tb[i - 1], tv[i - 1]));
                }
            }
        } else {
            let k = first_scalar_violation(tb, tv)->Some_0;
            assert(!scalar_ok(tb[k], tv[k]));
            assert forall|j: int| 0 <= j < k + 1 implies scalar_ok(bounds[j], vals[j]) by {
                if j > 0 {
                    assert(scalar_ok(tb[j - 1], tv[j - 1]));
                }
            }
        }
        if forall|i: int| 0 <= i < vals.len() ==> scalar_ok(bounds[i], vals[i]) {
            assert forall|i: int| 0 <= i < tv.len() implies scalar_ok(tb[i], tv[i]) by {
                assert(scalar_ok(bounds[i + 1], vals[i + 1]));
            }
        }
    }
}

proof fn lemma_first_text_violation(maxes: Seq<usize>, texts: Seq<Seq<u8>>)
    requires
        maxes.len() == texts.len(),
    ensures
        first_text_violation(maxes, texts) is None <==> (forall|i: int|
            0 <= i < texts.len() ==> text_ok(maxes[i], texts[i])),
        first_text_violation(maxes, texts) matches Some(i) ==> 0 <= i < texts.len() && !text_ok(
            maxes[i],
            texts[i],
        ) && (forall|j: int| 0 <= j < i ==> text_ok(maxes[j], texts[j])),
    decreases texts.len(),
{
    if texts.len() > 0 && text_ok(maxes[0], texts[0]) {
        let tm = maxes.drop_first();
        let tt = texts.drop_first();
        lemma_first_text_violation(tm, tt);
        assert(forall|i: int| 0 <= i < tt.len() ==> (tm[i] == maxes[i + 1] && tt[i] == texts[i + 1]));
        if first_text_violation(tm, tt) is None {
            assert forall|i: int| 0 <= i < texts.len() implies text_ok(maxes[i], texts[i]) by {
                if i > 0 {
                    assert(text_ok(tm[i - 1], tt[i - 1]));
                }
            }
        } else {
            let k = first_text_violation(tm, tt)->Some_0;
            assert(!text_ok(tm[k], tt[k]));
            assert forall|j: int| 0 <= j < k + 1 implies text_ok(maxes[j], texts[j]) by {
                if j > 0 {
                    assert(text_ok(tm[j - 1], tt[j - 1]));
                }
            }
        }
        if forall|i: int| 0 <= i < texts.len() ==> text_ok(maxes[i], texts[i]) {
            assert forall|i: int| 0 <= i < tt.len() implies text_ok(tm[i], tt[i]) by {
                assert(text_ok(maxes[i + 1], texts[i + 1]));
            }
        }
    }
}

proof fn lemma_first_scalar_violation_at(bounds: Seq<ScalarField>, vals: Seq<u64>, i: int)
    requires
        bounds.len() == vals.len(),
        0 <= i < vals.len(),
        !scalar_ok(bounds[i], vals[i]),
        forall|j: int| 0 <= j < i ==> scalar_ok(bounds[j], vals[j]),
    ensures
        first_scalar_violation(bounds, vals) == Some(i),
{
    lemma_first_scalar_violation(bounds, vals);
    let r = first_scalar_violation(bounds, vals);
    assert(r is Some);
    let k = r->Some_0;
    assert(!(k < i)) by {
        if k < i {
            assert(scalar_ok(bounds[k], vals[k]));
        }
    }
    assert(!(i < k)) by {
        if i < k {
            assert(scalar_ok(bounds[i], vals[i]));
        }
    }
}

proof fn lemma_first_text_violation_at(maxes: Seq<usize>, texts: Seq<Seq<u8>>, i: int)
    requires
        maxes.len() == texts.len(),
        0 <= i < texts.len(),
        !text_ok(maxes[i], texts[i]),
        forall|j: int| 0 <= j < i ==> text_ok(maxes[j], texts[j]),
    ensures
        first_text_violation(maxes, texts) == Some(i),
{
    lemma_first_text_violation(maxes, texts);
    let r = first_text_violation(maxes, texts);
    assert(r is Some);
    let k = r->Some_0;
    assert(!(k < i)) by {
        if k < i {
            assert(text_ok(maxes[k], texts[k]));
        }
    }
    assert(!(i < k)) by {
        if i < k {
            assert(text_ok(maxes[i], texts[i]));
        }
    }
}

/// Check a payload against its shape: every scalar must lie in its domain
/// and every text must fit its declared maximum. The verdict is the first
/// violation in field order, scalars before texts; a payload passes if
/// and only if every field respects its bound. The check is the same at
/// every mutation: `create` and `update` both run it before touching
/// storage.
pub fn validate(shape: &Shape, payload: &Payload) -> (r: Result<(), ValidationError>)
    requires
        arity_matches(shape@, payload@),
    ensures
        r matches Err(e) ==> first_violation(shape@, payload@) == Some(e),
        r is Ok <==> first_violation(shape@, payload@) is None,
        r is Ok <==> payload_valid(shape@, payload@),
{
    let n_scalars = payload.scalars.len();
    let mut i: usize = 0;
    while i < n_scalars
        invariant
            n_scalars == payload.scalars.len(),
            arity_matches(shape@, payload@),
            0 <= i <= n_scalars,
            forall|j: int| 0 <= j < i ==> scalar_ok(shape@.scalars[j], payload@.scalars[j]),
        decreases n_scalars - i,
    {
        let field = shape.scalars[i];
        let v = payload.scalars[i];
        if v < field.min || v > field.max {
            proof {
                lemma_first_scalar_violation_at(shape@.scalars, payload@.scalars, i as int);
            }
            return Err(ValidationError::OutOfRange { field: i });
        }
        i = i + 1;
    }
    proof {
        lemma_first_scalar_violation(shape@.scalars, payload@.scalars);
    }
    let n_texts = payload.texts.len();
    let mut i: usize = 0;
    while i < n_texts
        invariant
            n_texts == payload.texts.len(),
            arity_matches(shape@, payload@),
            first_scalar_violation(shape@.scalars, payload@.scalars) is None,
            forall|j: int| 0 <= j < payload.scalars.len() ==> scalar_ok(
                shape@.scalars[j],
                payload@.scalars[j],
            ),
            0 <= i <= n_texts,
            forall|j: int| 0 <= j < i ==> text_ok(shape@.text_maxes[j], payload@.texts[j]),
        decreases n_texts - i,
    {
        if payload.texts[i].len() > shape.text_maxes[i] {
            proof {
                lemma_first_text_violation_at(shape@.text_maxes, payload@.texts, i as int);
            }
            return Err(ValidationError::FieldTooLong { field: i });
        }
        i = i + 1;
    }
    proof {
        lemma_first_text_violation(shape@.text_maxes, payload@.texts);
    }
    Ok(())
}

/// Bytes taken by the text region when every text field sits at its
/// declared maximum: a length prefix plus the maximum, per field.
pub open spec fn texts_region_size(maxes: Seq<usize>) -> int
    decreases maxes.len(),
{
    if maxes.len() == 0 {
        0
    } else {
        texts_region_size(maxes.drop_last()) + TEXT_PREFIX_SIZE + maxes.last()
    }
}

/// Bytes taken by the text region at a payload's actual lengths.
pub open spec fn texts_payload_size(texts: Seq<Seq<u8>>) -> int
    decreases texts.len(),
{
    if texts.len() == 0 {
        0
    } else {
        texts_payload_size(texts.drop_last()) + TEXT_PREFIX_SIZE + texts.last().len()
    }
}

/// Bytes taken by the scalar fields of a shape: the sum of their widths.
pub open spec fn scalar_region_size(fields: Seq<ScalarField>) -> int
    decreases fields.len(),
{
    if fields.len() == 0 {
        0
    } else {
        scalar_region_size(fields.drop_last()) + fields.last().width
    }
}

/// Bytes taken by the fixed part of a record: discriminator tag, owner
/// identity and the scalar fields at their declared widths.
pub open spec fn fixed_region_size(s: ShapeV) -> int {
    DISCRIMINATOR_SIZE + OWNER_IDENTITY_SIZE + scalar_region_size(s.scalars)
}

/// Storage a record of this shape needs when allocated for the declared
/// maxima. The one-time allocation reserve is computed from this value.
pub open spec fn max_record_size(s: ShapeV) -> int {
    fixed_region_size(s) + texts_region_size(s.text_maxes)
}

/// Storage a record of this shape takes at a payload's actual lengths.
pub open spec fn record_size(s: ShapeV, p: PayloadV) -> int {
    fixed_region_size(s) + texts_payload_size(p.texts)
}

proof fn lemma_scalar_region_nonneg(fields: Seq<ScalarField>)
    ensures
        scalar_region_size(fields) >= 0,
    decreases fields.len(),
{
    if fields.len() > 0 {
        lemma_scalar_region_nonneg(fields.drop_last());
    }
}

proof fn lemma_scalar_region_prefix(fields: Seq<ScalarField>, k: int)
    requires
        0 <= k < fields.len(),
    ensures
        scalar_region_size(fields.take(k + 1)) == scalar_region_size(fields.take(k))
            + fields[k].width,
{
    assert(fields.take(k + 1).drop_last() =~= fields.take(k));
    assert(fields.take(k + 1).last() == fields[k]);
}

proof fn lemma_scalar_region_monotone(fields: Seq<ScalarField>, k: int)
    requires
        0 <= k <= fields.len(),
    ensures
        scalar_region_size(fields.take(k)) <= scalar_region_size(fields),
    decreases fields.len() - k,
{
    if k == fields.len() {
        assert(fields.take(k) =~= fields);
    } else {
        lemma_scalar_region_prefix(fields, k);
        lemma_scalar_region_monotone(fields, k + 1);
    }
}

proof fn lemma_texts_region_nonneg(maxes: Seq<usize>)
    ensures
        texts_region_size(maxes) >= 0,
    decreases maxes.len(),
{
    if maxes.len() > 0 {
        lemma_texts_region_nonneg(maxes.drop_last());
    }
}

proof fn lemma_texts_payload_nonneg(texts: Seq<Seq<u8>>)
    ensures
        texts_payload_size(texts) >= 0,
    decreases texts.len(),
{
    if texts.len() > 0 {
        lemma_texts_payload_nonneg(texts.drop_last());
    }
}

proof fn lemma_texts_region_prefix(maxes: Seq<usize>, k: int)
    requires
        0 <= k < maxes.len(),
    ensures
        texts_region_size(maxes.take(k + 1)) == texts_region_size(maxes.take(k))
            + TEXT_PREFIX_SIZE + maxes[k],
{
    assert(maxes.take(k + 1).drop_last() =~= maxes.take(k));
    assert(maxes.take(k + 1).last() == maxes[k]);
}

proof fn lemma_texts_payload_prefix(texts: Seq<Seq<u8>>, k: int)
    requires
        0 <= k < texts.len(),
    ensures
        texts_payload_size(texts.take(k + 1)) == texts_payload_size(texts.take(k))
            + TEXT_PREFIX_SIZE + texts[k].len(),
{
    assert(texts.take(k + 1).drop_last() =~= texts.take(k));
    assert(texts.take(k + 1).last() == texts[k]);
}

proof fn lemma_texts_region_monotone(maxes: Seq<usize>, k: int)
    requires
        0 <= k <= maxes.len(),
    ensures
        texts_region_size(maxes.take(k)) <= texts_region_size(maxes),
    decreases maxes.len() - k,
{
    if k == maxes.len() {
        assert(maxes.take(k) =~= maxes);
    } else {
        lemma_texts_region_prefix(maxes, k);
        lemma_texts_region_monotone(maxes, k + 1);
    }
}

proof fn lemma_texts_payload_monotone(texts: Seq<Seq<u8>>, k: int)
    requires
        0 <= k <= texts.len(),
    ensures
        texts_payload_size(texts.take(k)) <= texts_payload_size(texts),
    decreases texts.len() - k,
{
    if k == texts.len() {
        assert(texts.take(k) =~= texts);
    } else {
        lemma_texts_payload_prefix(texts, k);
        lemma_texts_payload_monotone(texts, k + 1);
    }
}

/// A payload that respects its bounds never takes more storage than the
/// declared maxima allow.
pub proof fn lemma_record_size_le_max(s: ShapeV, p: PayloadV)
    requires
        arity_matches(s, p),
        payload_valid(s, p),
    ensures
        0 <= record_size(s, p) <= max_record_size(s),
{
    lemma_texts_sizes_le(s.text_maxes, p.texts);
    lemma_texts_payload_nonneg(p.texts);
    lemma_scalar_region_nonneg(s.scalars);
}

proof fn lemma_texts_sizes_le(maxes: Seq<usize>, texts: Seq<Seq<u8>>)
    requires
        maxes.len() == texts.len(),
        forall|i: int| 0 <= i < texts.len() ==> text_ok(maxes[i], texts[i]),
    ensures
        texts_payload_size(texts) <= texts_region_size(maxes),
    decreases texts.len(),
{
    if texts.len() > 0 {
        assert(forall|i: int|
            0 <= i < texts.len() - 1 ==> (maxes.drop_last()[i] == maxes[i]
                && texts.drop_last()[i] == texts[i]));
        lemma_texts_sizes_le(maxes.drop_last(), texts.drop_last());
        assert(text_ok(maxes.last(), texts.last())) by {
            assert(maxes[maxes.len() - 1] == maxes.last());
        }
    }
}

/// Storage needed by a record of this shape at the declared maxima, or
/// `None` where that size does not fit the machine.
pub fn max_size(shape: &Shape) -> (r: Option<usize>)
    ensures
        r matches Some(s) ==> s as int == max_record_size(shape@),
        r is None ==> max_record_size(shape@) > usize::MAX,
{
    proof {
        lemma_texts_region_nonneg(shape@.text_maxes);
    }
    let mut acc: usize = DISCRIMINATOR_SIZE + OWNER_IDENTITY_SIZE;
    let n_scalars = shape.scalars.len();
    let mut i: usize = 0;
    while i < n_scalars
        invariant
            n_scalars == shape@.scalars.len(),
            0 <= i <= n_scalars,
            acc as int == DISCRIMINATOR_SIZE + OWNER_IDENTITY_SIZE + scalar_region_size(
                shape@.scalars.take(i as int),
            ),
            texts_region_size(shape@.text_maxes) >= 0,
        decreases n_scalars - i,
    {
        proof {
            lemma_scalar_region_prefix(shape@.scalars, i as int);
            lemma_scalar_region_monotone(shape@.scalars, i as int + 1);
        }
        let w = shape.scalars[i].width;
        if w > usize::MAX - acc {
            return None;
        }
        acc = acc + w;
        i = i + 1;
    }
    proof {
        assert(shape@.scalars.take(n_scalars as int) =~= shape@.scalars);
    }
    let n_texts = shape.text_maxes.len();
    let mut i: usize = 0;
    while i < n_texts
        invariant
            n_texts == shape@.text_maxes.len(),
            0 <= i <= n_texts,
            acc as int == fixed_region_size(shape@) + texts_region_size(shape@.text_maxes.take(
                i as int,
            )),
        decreases n_texts - i,
    {
        proof {
            lemma_texts_region_prefix(shape@.text_maxes, i as int);
            lemma_texts_region_monotone(shape@.text_maxes, i as int + 1);
        }
        if acc > usize::MAX - TEXT_PREFIX_SIZE {
            return None;
        }
        let acc2 = acc + TEXT_PREFIX_SIZE;
        let m = shape.text_maxes[i];
        if m > usize::MAX - acc2 {
            return None;
        }
        acc = acc2 + m;
        i = i + 1;
    }
    proof {
        assert(shape@.text_maxes.take(n_texts as int) =~= shape@.text_maxes);
    }
    Some(acc)
}

/// Storage a record of this shape takes at the payload's actual lengths,
/// or `None` where that size does not fit the machine.
pub fn payload_size(shape: &Shape, payload: &Payload) -> (r: Option<usize>)
    requires
        arity_matches(shape@, payload@),
    ensures
        r matches Some(s) ==> s as int == record_size(shape@, payload@),
        r is None ==> record_size(shape@, payload@) > usize::MAX,
{
    proof {
        lemma_texts_payload_nonneg(payload@.texts);
    }
    let mut acc: usize = DISCRIMINATOR_SIZE + OWNER_IDENTITY_SIZE;
    let n_scalars = shape.scalars.len();
    let mut i: usize = 0;
    while i < n_scalars
        invariant
            n_scalars == shape@.scalars.len(),
            0 <= i <= n_scalars,
            acc as int == DISCRIMINATOR_SIZE + OWNER_IDENTITY_SIZE + scalar_region_size(
                shape@.scalars.take(i as int),
            ),
            texts_payload_size(payload@.texts) >= 0,
        decreases n_scalars - i,
    {
        proof {
            lemma_scalar_region_prefix(shape@.scalars, i as int);
            lemma_scalar_region_monotone(shape@.scalars, i as int + 1);
        }
        let w = shape.scalars[i].width;
        if w > usize::MAX - acc {
            return None;
        }
        acc = acc + w;
        i = i + 1;
    }
    proof {
        assert(shape@.scalars.take(n_scalars as int) =~= shape@.scalars);
    }
    let n_texts = payload.texts.len();
    let mut i: usize = 0;
    while i < n_texts
        invariant
            n_texts == payload@.texts.len(),
            arity_matches(shape@, payload@),
            0 <= i <= n_texts,
            acc as int == fixed_region_size(shape@) + texts_payload_size(payload@.texts.take(
                i as int,
            )),
        decreases n_texts - i,
    {
        proof {
            lemma_texts_payload_prefix(payload@.texts, i as int);
            lemma_texts_payload_monotone(payload@.texts, i as int + 1);
        }
        if acc > usize::MAX - TEXT_PREFIX_SIZE {
            return None;
        }
        let acc2 = acc + TEXT_PREFIX_SIZE;
        let m = payload.texts[i].len();
        if m > usize::MAX - acc2 {
            return None;
        }
        acc = acc2 + m;
        i = i + 1;
    }
    proof {
        assert(payload@.texts.take(n_texts as int) =~= payload@.texts);
    }
    Some(acc)
}

} // verus!
