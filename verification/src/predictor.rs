//! Value predictors. A predictor guesses the next value of a series from the
//! values it has absorbed so far; the codec stores only the XOR of the real
//! value with that guess. Encoder and decoder must feed identically built
//! predictors with the same values.

use vstd::prelude::*;

verus! {

/// A deterministic state machine that predicts the next 64-bit value.
///
/// The state is described by a mathematical `Model`; both operations are
/// functions of that model alone, which is what lets a decoder retrace the
/// predictions of the encoder.
pub trait Predictor {
    /// The mathematical state of the predictor.
    type Model;

    /// The representation invariant.
    spec fn inv(&self) -> bool;

    /// The state this predictor is in.
    spec fn model(&self) -> Self::Model;

    /// The value predicted in state `m`.
    spec fn predict_spec(m: Self::Model) -> u64;

    /// The state reached from `m` by absorbing `value`.
    spec fn update_spec(m: Self::Model, value: u64) -> Self::Model;

    /// The prediction for the next value; the state is left alone.
    fn predict_next(&self) -> (p: u64)
        requires
            self.inv(),
        ensures
            p == Self::predict_spec(self.model()),
    ;

    /// Absorbs the value that was actually observed.
    fn update(&mut self, value: u64)
        requires
            old(self).inv(),
        ensures
            final(self).inv(),
            final(self).model() == Self::update_spec(old(self).model(), value),
    ;
}

/// The state of a predictor after absorbing `values` one by one from `m`.
pub open spec fn model_after<P: Predictor>(m: P::Model, values: Seq<u64>) -> P::Model
    decreases values.len(),
{
    if values.len() == 0 {
        m
    } else {
        P::update_spec(model_after::<P>(m, values.drop_last()), values.last())
    }
}

/// The prediction made after absorbing `values` one by one from `m`.
pub open spec fn prediction_after<P: Predictor>(m: P::Model, values: Seq<u64>) -> u64 {
    P::predict_spec(model_after::<P>(m, values))
}

/// Two predictors of one kind that start in the same state and absorb the same
/// values make the same predictions all along, and arrive in the same state.
pub proof fn lemma_predictions_agree<P: Predictor>(a: P, b: P, values: Seq<u64>)
    requires
        a.model() == b.model(),
    ensures
        forall|k: int|
            0 <= k <= values.len() ==> prediction_after::<P>(a.model(), values.take(k))
                == prediction_after::<P>(b.model(), values.take(k)),
        model_after::<P>(a.model(), values) == model_after::<P>(b.model(), values),
{
}

/// Predicts that the next value repeats the last one.
#[derive(Debug)]
pub struct SimplePredictor {
    next_value: u64,
}

impl SimplePredictor {
    /// A predictor whose first prediction is 0.
    pub fn new() -> (p: SimplePredictor)
        ensures
            p.inv(),
            p.model() == 0u64,
    {
        SimplePredictor { next_value: 0 }
    }
}

impl Predictor for SimplePredictor {
    type Model = u64;

    open spec fn inv(&self) -> bool {
        true
    }

    closed spec fn model(&self) -> u64 {
        self.next_value
    }

    open spec fn predict_spec(m: u64) -> u64 {
        m
    }

    open spec fn update_spec(m: u64, value: u64) -> u64 {
        value
    }

    fn predict_next(&self) -> (p: u64) {
        self.next_value
    }

    fn update(&mut self, value: u64) {
        self.next_value = value;
    }
}

/// Whether `size` is a power of two.
pub open spec fn is_power_of_two(size: usize) -> bool {
    size >= 1 && (size & ((size - 1) as usize)) == 0
}

/// The hash of the recent history after `value` has been seen at `hash`.
pub open spec fn next_hash(hash: u64, value: u64, mask: u64) -> u64 {
    ((hash << 5) ^ (value >> 50)) & mask
}

/// The state of a table-driven predictor: a table indexed by a rolling hash of
/// what was seen recently. `last_value` is used by the differential variant
/// only and stays 0 otherwise.
pub struct TableModel {
    pub table: Seq<u64>,
    pub last_hash: u64,
    pub last_value: u64,
    pub mask: u64,
}

impl TableModel {
    /// The hash indexes the table, whose size is one more than the mask.
    pub open spec fn wf(self) -> bool {
        &&& self.table.len() == self.mask + 1
        &&& self.last_hash <= self.mask
    }

    /// The state right after construction with a table of `size` entries.
    pub open spec fn fresh(size: usize) -> TableModel {
        TableModel {
            table: Seq::new(size as nat, |i: int| 0u64),
            last_hash: 0,
            last_value: 0,
            mask: (size - 1) as u64,
        }
    }
}

proof fn lemma_hash_in_table(hash: u64, value: u64, mask: u64)
    ensures
        next_hash(hash, value, mask) <= mask,
{
    assert((((hash << 5) ^ (value >> 50)) & mask) <= mask) by (bit_vector);
}

/// Finite context method: predicts the value that followed the same recent
/// history the last time it occurred.
#[derive(Debug)]
pub struct FcmPredictor {
    table: Vec<u64>,
    last_hash: u64,
    mask: u64,
}

impl FcmPredictor {
    /// A predictor with a table of `size` entries, all 0. The size has to be a
    /// power of two, so that `size - 1` is a bit mask.
    pub fn new(size: usize) -> (p: FcmPredictor)
        requires
            is_power_of_two(size),
        ensures
            p.inv(),
            p.model() == TableModel::fresh(size),
    {
        let p = FcmPredictor { table: vec![0u64; size], last_hash: 0, mask: (size - 1) as u64 };
        assert(p.model().table =~= TableModel::fresh(size).table);
        p
    }
}

impl Predictor for FcmPredictor {
    type Model = TableModel;

    open spec fn inv(&self) -> bool {
        self.model().wf()
    }

    closed spec fn model(&self) -> TableModel {
        TableModel {
            table: self.table@,
            last_hash: self.last_hash,
            last_value: 0,
            mask: self.mask,
        }
    }

    open spec fn predict_spec(m: TableModel) -> u64 {
        m.table[m.last_hash as int]
    }

    open spec fn update_spec(m: TableModel, value: u64) -> TableModel {
        TableModel {
            table: m.table.update(m.last_hash as int, value),
            last_hash: next_hash(m.last_hash, value, m.mask),
            last_value: m.last_value,
            mask: m.mask,
        }
    }

    fn predict_next(&self) -> (p: u64) {
        assert(self.table.len() == self.mask + 1);
        self.table[self.last_hash as usize]
    }

    fn update(&mut self, value: u64) {
        proof {
            assert(self.table.len() == self.mask + 1);
            lemma_hash_in_table(self.last_hash, value, self.mask);
        }
        self.table.set(self.last_hash as usize, value);
        self.last_hash = ((self.last_hash << 5) ^ (value >> 50)) & self.mask;
    }
}

/// Differential finite context method: like [`FcmPredictor`], but the table
/// holds the differences between successive values.
#[derive(Debug)]
pub struct DfcmPredictor {
    table: Vec<u64>,
    last_hash: u64,
    last_value: u64,
    mask: u64,
}

impl DfcmPredictor {
    /// A predictor with a table of `size` entries, all 0. The size has to be a
    /// power of two, so that `size - 1` is a bit mask.
    pub fn new(size: usize) -> (p: DfcmPredictor)
        requires
            is_power_of_two(size),
        ensures
            p.inv(),
            p.model() == TableModel::fresh(size),
    {
        let p = DfcmPredictor {
            table: vec![0u64; size],
            last_hash: 0,
            last_value: 0,
            mask: (size - 1) as u64,
        };
        assert(p.model().table =~= TableModel::fresh(size).table);
        p
    }
}

impl Predictor for DfcmPredictor {
    type Model = TableModel;

    open spec fn inv(&self) -> bool {
        self.model().wf()
    }

    closed spec fn model(&self) -> TableModel {
        TableModel {
            table: self.table@,
            last_hash: self.last_hash,
            last_value: self.last_value,
            mask: self.mask,
        }
    }

    open spec fn predict_spec(m: TableModel) -> u64 {
        m.table[m.last_hash as int].wrapping_add(m.last_value)
    }

    open spec fn update_spec(m: TableModel, value: u64) -> TableModel {
        let diff = value.wrapping_sub(m.last_value);
        TableModel {
            table: m.table.update(m.last_hash as int, diff),
            last_hash: next_hash(m.last_hash, diff, m.mask),
            last_value: value,
            mask: m.mask,
        }
    }

    fn predict_next(&self) -> (p: u64) {
        assert(self.table.len() == self.mask + 1);
        self.table[self.last_hash as usize].wrapping_add(self.last_value)
    }

    fn update(&mut self, value: u64) {
        let diff = value.wrapping_sub(self.last_value);
        proof {
            assert(self.table.len() == self.mask + 1);
            lemma_hash_in_table(self.last_hash, diff, self.mask);
        }
        self.table.set(self.last_hash as usize, diff);
        self.last_hash = ((self.last_hash << 5) ^ (diff >> 50)) & self.mask;
        self.last_value = value;
    }
}

} // verus!
