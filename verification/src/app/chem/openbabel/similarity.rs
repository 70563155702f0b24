//! OpenBabel similarity search.
//!
//! A fingerprint is a fixed-length bit-vector packed into 32-bit words.
//! The Tanimoto coefficient of two fingerprints is
//! popcount(a AND b) / popcount(a OR b), taken as exactly zero when the
//! union has no set bit; a dataset entry is retained exactly when its
//! coefficient is strictly greater than the caller's threshold.

use vstd::prelude::*;
use crate::kinds::cu::{dec_cu, decode_cu, enc_cu, encode_cu, lemma_dec_enc_cu};
use crate::serial::{
    dec_num_u64, dec_str, decode_num_u64, decode_str, enc_num, enc_str, encode_num, encode_str,
    lemma_dec_enc_num, lemma_dec_enc_str, lemma_dec_rec_rest,
};
use crate::traits::{Serialization, TraitInput};
use openbabel::fingerprint::FingerprintGenerator as ObGenerator;
use openbabel::fingerprint::Kind as ObFpKind;
use crate::app::chem::openbabel::kinds::Fingerprint as ObKind;

verus! {

/// More words than any fingerprint can hold; a fingerprint wider than
/// this (over two billion bits) is silently clipped to it, so that bit
/// counts stay well inside a `u64`.
pub const MAX_FP_WORDS: usize = 0x0400_0000;

/// What openbabel generates for one fingerprint kind (given by its
/// canonical textual name) on one SMILES string.
pub uninterp spec fn fingerprint_bits(kind_name: Seq<char>, smiles: Seq<char>) -> Seq<u32>;

/// The word count openbabel generates for one fingerprint kind; it
/// depends on the kind alone.
pub uninterp spec fn fp_word_len(kind_name: Seq<char>) -> nat;

pub open spec fn clip_words(s: Seq<u32>) -> Seq<u32> {
    if s.len() <= MAX_FP_WORDS {
        s
    } else {
        s.subrange(0, MAX_FP_WORDS as int)
    }
}

/// Relies on openbabel's FingerprintGenerator: for each SMILES string it
/// parses the molecule and generates this kind's fingerprint; a structure
/// that does not parse yields an all-zero row.  The match only carries
/// the kind over to the equally-named openbabel kind, field for field.
/// The width must be a power of two of at least one word: smaller or
/// uneven widths make the generator write out of bounds, and only a
/// power of two folds to the same word count that a zero-filled failure
/// row gets, so the word count is a function of the kind alone.  The
/// bits are named only for the families computed in memory; the FP3 and
/// FP4 families read pattern files from disk, so nothing is claimed of
/// their bits.
#[verifier::external_body]
fn ob_fingerprints(
    fpk: &crate::app::chem::kinds::Fingerprint,
    smiles_vec: &Vec<String>,
) -> (r: Vec<Vec<u32>>)
    requires
        fpk.spec_width_ok(),
    ensures
        r@.len() == smiles_vec@.len(),
        fpk.spec_pattern_file_free() ==> forall|i: int|
            0 <= i < r@.len() ==> (#[trigger] r@[i])@ == fingerprint_bits(
                fpk.spec_name(),
                smiles_vec@[i]@,
            ),
        forall|i: int| 0 <= i < r@.len() ==> (#[trigger] r@[i])@.len() == fp_word_len(
            fpk.spec_name(),
        ),
{
    let crate::app::chem::kinds::Fingerprint::OpenBabel { kind } = fpk;
    let k = match kind {
        ObKind::FP2 { nbits } => ObFpKind::FP2 { nbits: *nbits },
        ObKind::FP3 { nbits } => ObFpKind::FP3 { nbits: *nbits },
        ObKind::FP4 { nbits } => ObFpKind::FP4 { nbits: *nbits },
        ObKind::ECFP0 { nbits } => ObFpKind::ECFP0 { nbits: *nbits },
        ObKind::ECFP2 { nbits } => ObFpKind::ECFP2 { nbits: *nbits },
        ObKind::ECFP4 { nbits } => ObFpKind::ECFP4 { nbits: *nbits },
        ObKind::ECFP6 { nbits } => ObFpKind::ECFP6 { nbits: *nbits },
        ObKind::ECFP8 { nbits } => ObFpKind::ECFP8 { nbits: *nbits },
        ObKind::ECFP10 { nbits } => ObFpKind::ECFP10 { nbits: *nbits },
    };
    ObGenerator::new(k).get_fingerprint_for_smiles_vec(smiles_vec)
}

/// The number of set bits in one word.
pub open spec fn pop(x: u32) -> nat
    decreases x,
{
    if x == 0 {
        0
    } else {
        ((x % 2) + pop(x / 2)) as nat
    }
}

proof fn lemma_pop_le_self(x: u32)
    ensures
        pop(x) <= x,
    decreases x,
{
    if x != 0 {
        lemma_pop_le_self(x / 2);
    }
}

/// A word has no set bits exactly when it is zero.
proof fn lemma_pop_zero(x: u32)
    ensures
        pop(x) == 0 <==> x == 0,
    decreases x,
{
    if x != 0 {
        if x % 2 == 0 {
            lemma_pop_zero(x / 2);
        }
    }
}

/// The intersection of two words has no more set bits than their union.
proof fn lemma_pop_and_le_or(x: u32, y: u32)
    ensures
        pop(x & y) <= pop(x | y),
    decreases x + y,
{
    if x == 0 && y == 0 {
        assert((x & y) == 0 && (x | y) == 0) by (bit_vector)
            requires
                x == 0 && y == 0,
        ;
    } else {
        assert((x & y) % 2 <= (x | y) % 2) by (bit_vector);
        assert((x & y) / 2 == (x / 2) & (y / 2)) by (bit_vector);
        assert((x | y) / 2 == (x / 2) | (y / 2)) by (bit_vector);
        assert(x / 2 + y / 2 < x + y) by (bit_vector)
            requires
                !(x == 0 && y == 0),
        ;
        lemma_pop_and_le_or(x / 2, y / 2);
        if (x & y) != 0 {
            assert(pop(x & y) == (x & y) % 2 + pop((x & y) / 2));
        } else {
            assert(pop(x & y) == 0);
        }
        if (x | y) != 0 {
            assert(pop(x | y) == (x | y) % 2 + pop((x | y) / 2));
        } else {
            assert((x | y) == 0 ==> x == 0 && y == 0) by (bit_vector);
        }
    }
}

/// Set bits of the word-wise intersections of the first `n` words.
pub open spec fn inter_count(a: Seq<u32>, b: Seq<u32>, n: int) -> nat
    decreases n,
{
    if n <= 0 {
        0
    } else {
        inter_count(a, b, n - 1) + pop(a[n - 1] & b[n - 1])
    }
}

/// Set bits of the word-wise unions of the first `n` words.
pub open spec fn union_count(a: Seq<u32>, b: Seq<u32>, n: int) -> nat
    decreases n,
{
    if n <= 0 {
        0
    } else {
        union_count(a, b, n - 1) + pop(a[n - 1] | b[n - 1])
    }
}

/// The exact value of a Tanimoto coefficient: `num` set bits in the
/// intersection over `den` set bits in the union.  The coefficient is
/// zero when `num` is zero, in particular whenever the union is empty.
#[derive(Debug, Clone, Copy, PartialEq, Eq, Structural)]
pub struct TanimotoCoeff {
    pub num: u64,
    pub den: u64,
}

impl TanimotoCoeff {
    /// num/den > t.num/t.den, compared exactly in cross-multiplied form.
    pub open spec fn spec_gt(self, t: Threshold) -> bool {
        self.num * t.den > t.num * self.den
    }

    /// Is this coefficient strictly greater than the threshold?
    pub fn gt(&self, t: &Threshold) -> (r: bool)
        ensures
            r == self.spec_gt(*t),
    {
        proof {
            assert((self.num as int) * (t.den as int) < 0x100000000000000000000000000000000
                && (t.num as int) * (self.den as int) < 0x100000000000000000000000000000000)
                by (nonlinear_arith)
                requires
                    self.num <= 0xffffffffffffffffu64,
                    t.den <= 0xffffffffffffffffu64,
                    t.num <= 0xffffffffffffffffu64,
                    self.den <= 0xffffffffffffffffu64,
            ;
        }
        (self.num as u128) * (t.den as u128) > (t.num as u128) * (self.den as u128)
    }
}

/// A retention threshold, as the exact rational num/den.
#[derive(Debug, Clone, Copy, PartialEq, Eq, Structural)]
pub struct Threshold {
    pub num: u64,
    pub den: u64,
}

/// Tanimoto coefficient for fingerprint data: the set-bit counts of the
/// word-wise intersection and union.
pub fn similarity_tanimoto(fpd_1: &[u32], fpd_2: &[u32]) -> (r: TanimotoCoeff)
    requires
        fpd_1@.len() == fpd_2@.len(),
        fpd_1@.len() <= MAX_FP_WORDS,
    ensures
        r.num == inter_count(fpd_1@, fpd_2@, fpd_1@.len() as int),
        r.den == union_count(fpd_1@, fpd_2@, fpd_1@.len() as int),
        r.num <= r.den,
{
    let n = fpd_1.len();
    let mut andbits: u64 = 0;
    let mut orbits: u64 = 0;
    let mut i: usize = 0;
    while i < n
        invariant
            i <= n,
            n == fpd_1@.len() == fpd_2@.len(),
            n <= MAX_FP_WORDS,
            andbits == inter_count(fpd_1@, fpd_2@, i as int),
            orbits == union_count(fpd_1@, fpd_2@, i as int),
            andbits <= orbits <= 32 * i,
        decreases n - i,
    {
        let x = fpd_1[i];
        let y = fpd_2[i];
        let andfp: u32 = x & y;
        let orfp: u32 = x | y;
        proof {
            lemma_pop_and_le_or(x, y);
            lemma_pop_32(andfp);
            lemma_pop_32(orfp);
        }
        andbits = andbits + popcount(andfp) as u64;
        orbits = orbits + popcount(orfp) as u64;
        i += 1;
    }
    TanimotoCoeff { num: andbits, den: orbits }
}

/// Every 32-bit word has at most 32 set bits.
proof fn lemma_pop_32(x: u32)
    ensures
        pop(x) <= 32,
{
    vstd::arithmetic::power2::lemma2_to64();
    assert(x < vstd::arithmetic::power2::pow2(32));
    lemma_pop_bound(x as nat, 32);
}

proof fn lemma_pop_bound(x: nat, k: nat)
    requires
        x < vstd::arithmetic::power2::pow2(k),
    ensures
        x <= u32::MAX ==> pop(x as u32) <= k,
    decreases k,
{
    vstd::arithmetic::power2::lemma2_to64();
    if x == 0 {
    } else if k == 0 {
        assert(vstd::arithmetic::power2::pow2(0) == 1);
    } else {
        assert(vstd::arithmetic::power2::pow2(k) == 2 * vstd::arithmetic::power2::pow2((k - 1) as nat)) by {
            vstd::arithmetic::power2::lemma_pow2_unfold(k);
        }
        lemma_pop_bound(x / 2, (k - 1) as nat);
        if x <= u32::MAX {
            let xu = x as u32;
            assert(xu / 2 == x / 2);
            assert(pop(xu) == xu % 2 + pop(xu / 2));
        }
    }
}

/// The number of set bits in `x`.
pub fn popcount(x: u32) -> (r: u32)
    ensures
        r == pop(x),
{
    let mut v = x;
    let mut count: u32 = 0;
    proof {
        lemma_pop_le_self(x);
        lemma_pop_32(x);
    }
    while v != 0
        invariant
            count + pop(v) == pop(x),
            pop(x) <= 32,
        decreases v,
    {
        proof {
            assert(v / 2 < v) by (bit_vector)
                requires
                    v != 0,
            ;
            assert(v & 1 == v % 2) by (bit_vector);
            lemma_pop_32(v / 2);
        }
        count = count + (v & 1);
        v = v / 2;
    }
    count
}

/// Word-wise facts lifted to whole fingerprints: the intersection never
/// holds more bits than the union, so the coefficient lies in [0, 1].
pub proof fn lemma_inter_le_union(a: Seq<u32>, b: Seq<u32>, n: int)
    requires
        n <= a.len() && n <= b.len(),
    ensures
        inter_count(a, b, n) <= union_count(a, b, n),
    decreases n,
{
    if n > 0 {
        lemma_inter_le_union(a, b, n - 1);
        lemma_pop_and_le_or(a[n - 1], b[n - 1]);
    }
}

/// A fingerprint compared with itself has coefficient one: intersection
/// and union coincide.
pub proof fn lemma_similarity_self(a: Seq<u32>, n: int)
    requires
        n <= a.len(),
    ensures
        inter_count(a, a, n) == union_count(a, a, n),
    decreases n,
{
    if n > 0 {
        lemma_similarity_self(a, n - 1);
        let x = a[n - 1];
        assert((x & x) == x && (x | x) == x) by (bit_vector);
    }
}

/// The similarity is symmetric in its two fingerprints.
pub proof fn lemma_similarity_symmetric(a: Seq<u32>, b: Seq<u32>, n: int)
    requires
        n <= a.len() && n <= b.len(),
    ensures
        inter_count(a, b, n) == inter_count(b, a, n),
        union_count(a, b, n) == union_count(b, a, n),
    decreases n,
{
    if n > 0 {
        lemma_similarity_symmetric(a, b, n - 1);
        let x = a[n - 1];
        let y = b[n - 1];
        assert((x & y) == (y & x) && (x | y) == (y | x)) by (bit_vector);
    }
}

/// The union counts no bit exactly when both fingerprints are all-zero;
/// then the coefficient is defined as exactly zero.
pub proof fn lemma_union_zero(a: Seq<u32>, b: Seq<u32>, n: int)
    requires
        0 <= n <= a.len() && n <= b.len(),
    ensures
        union_count(a, b, n) == 0 <==> (forall|i: int| 0 <= i < n ==> a[i] == 0 && b[i] == 0),
    decreases n,
{
    if n > 0 {
        lemma_union_zero(a, b, n - 1);
        let x = a[n - 1];
        let y = b[n - 1];
        lemma_pop_zero(x | y);
        assert((x | y) == 0 <==> x == 0 && y == 0) by (bit_vector);
    }
}

/// The intersection counts no bit exactly when no bit is shared; the
/// coefficient is zero exactly then, which includes every all-zero union.
pub proof fn lemma_inter_zero(a: Seq<u32>, b: Seq<u32>, n: int)
    requires
        0 <= n <= a.len() && n <= b.len(),
    ensures
        inter_count(a, b, n) == 0 <==> (forall|i: int| 0 <= i < n ==> (a[i] & b[i]) == 0),
    decreases n,
{
    if n > 0 {
        lemma_inter_zero(a, b, n - 1);
        lemma_pop_zero(a[n - 1] & b[n - 1]);
    }
}

/// A fingerprint with at least one set bit meets itself in a positive
/// union, so its self-similarity is exactly one.
pub proof fn lemma_similarity_self_one(a: Seq<u32>, n: int)
    requires
        0 <= n <= a.len(),
        exists|i: int| 0 <= i < n && a[i] != 0,
    ensures
        inter_count(a, a, n) == union_count(a, a, n),
        union_count(a, a, n) > 0,
{
    lemma_similarity_self(a, n);
    lemma_union_zero(a, a, n);
}

/// Input of a similarity search: the query structure and the retention
/// threshold.
#[derive(Debug, Clone, PartialEq)]
pub struct Input {
    pub smiles: crate::app::chem::types::SMILES,
    pub threshold: Threshold,
}

/// Output of a similarity search: the retained entries, each with its
/// exact coefficient.
#[derive(Debug, Clone, PartialEq)]
pub struct Output {
    pub results: Vec<(TanimotoCoeff, crate::data::types::EntryID)>,
}

/// The prepared slice of a corpus: entry identifiers beside their
/// fingerprints.
#[derive(Debug, Clone, PartialEq)]
pub struct Data {
    pub dsk: crate::kinds::Dataset,
    pub ids: Vec<crate::data::types::EntryID>,
    pub fps: Vec<crate::app::chem::types::FingerprintData>,
}

/// The fingerprint length all entries of a well-formed slice share:
/// the kind's word count, clipped.
pub open spec fn clip_len(kind_name: Seq<char>) -> nat {
    if fp_word_len(kind_name) <= MAX_FP_WORDS as nat {
        fp_word_len(kind_name)
    } else {
        MAX_FP_WORDS as nat
    }
}

impl Data {
    /// Well-formed for a fingerprint kind: one fingerprint per entry, all
    /// of the kind's clipped word count.
    pub open spec fn wf_for(self, kind_name: Seq<char>) -> bool {
        &&& self.ids@.len() == self.fps@.len()
        &&& forall|i: int| 0 <= i < self.fps@.len() ==> (#[trigger] self.fps@[i])@.len()
            == clip_len(kind_name)
    }

    /// Fingerprints for every entry of the handed-out slice.
    pub fn new(
        dsk: crate::kinds::Dataset,
        pairs: crate::app::chem::types::IdSmilesPairs,
        fpk: &crate::app::chem::kinds::Fingerprint,
    ) -> (r: Data)
        requires
            pairs.0@.len() == pairs.1@.len(),
            fpk.spec_width_ok(),
        ensures
            r.wf_for(fpk.spec_name()),
            r.dsk == dsk,
            r.ids == pairs.0,
            r.fps@.len() == pairs.1@.len(),
            fpk.spec_pattern_file_free() ==> forall|i: int|
                0 <= i < r.fps@.len() ==> (#[trigger] r.fps@[i])@ == clip_words(
                    fingerprint_bits(fpk.spec_name(), pairs.1@[i]@),
                ),
    {
        let (ids, smiles_vec) = pairs;
        let raw = ob_fingerprints(fpk, &smiles_vec);
        let mut fps: Vec<crate::app::chem::types::FingerprintData> = Vec::new();
        let n = raw.len();
        let mut i: usize = 0;
        while i < n
            invariant
                i <= n,
                n == raw@.len(),
                raw@.len() == smiles_vec@.len(),
                fpk.spec_pattern_file_free() ==> forall|j: int|
                    0 <= j < raw@.len() ==> (#[trigger] raw@[j])@ == fingerprint_bits(
                        fpk.spec_name(),
                        smiles_vec@[j]@,
                    ),
                forall|j: int| 0 <= j < raw@.len() ==> (#[trigger] raw@[j])@.len() == fp_word_len(
                    fpk.spec_name(),
                ),
                fps@.len() == i,
                fpk.spec_pattern_file_free() ==> forall|j: int|
                    0 <= j < i ==> (#[trigger] fps@[j])@ == clip_words(
                        fingerprint_bits(fpk.spec_name(), smiles_vec@[j]@),
                    ),
                forall|j: int| 0 <= j < i ==> (#[trigger] fps@[j])@.len() == clip_len(
                    fpk.spec_name(),
                ),
            decreases n - i,
        {
            let mut fp = raw[i].clone();
            proof {
                assert(fp@ == raw@[i as int]@);
            }
            if fp.len() > MAX_FP_WORDS {
                fp.truncate(MAX_FP_WORDS);
            }
            fps.push(fp);
            i += 1;
        }
        Data { dsk, ids, fps }
    }

    /// The slice built from a whole in-memory document.
    pub fn from(
        t: (&crate::app::chem::kinds::Fingerprint, &crate::kinds::Dataset, &crate::data::DocSMILES),
    ) -> (r: Data)
        requires
            t.2.wf(),
            t.0.spec_width_ok(),
        ensures
            r.wf_for(t.0.spec_name()),
            r.dsk == *t.1,
            r.ids@ == t.2.ids@,
            r.fps@.len() == t.2.smiles@.len(),
            t.0.spec_pattern_file_free() ==> forall|i: int|
                0 <= i < r.fps@.len() ==> (#[trigger] r.fps@[i])@ == clip_words(
                    fingerprint_bits(t.0.spec_name(), t.2.smiles@[i]@),
                ),
    {
        let (fpk, dsk, doc) = t;
        let ids_c = doc.get_ids().clone();
        let smiles_c = doc.get_smiles_vec().clone();
        proof {
            assert forall|i: int| 0 <= i < ids_c@.len() implies ids_c@[i] == doc.ids@[i] by {
                assert(cloned::<String>(doc.ids@[i], ids_c@[i]));
            }
            assert(ids_c@ =~= doc.ids@);
            assert forall|i: int| 0 <= i < smiles_c@.len() implies smiles_c@[i] == doc.smiles@[i] by {
                assert(cloned::<String>(doc.smiles@[i], smiles_c@[i]));
            }
            assert(smiles_c@ =~= doc.smiles@);
        }
        Data::new(*dsk, (ids_c, smiles_c), fpk)
    }
}

impl crate::traits::TraitData for Data {
    fn blank() -> Self {
        Data { dsk: crate::kinds::Dataset::Empty, ids: Vec::new(), fps: Vec::new() }
    }

    fn len(&self) -> usize {
        self.ids.len()
    }
}

/// What a similarity search returns on a slice: the entries whose
/// coefficient against the query fingerprint exceeds the threshold, in
/// slice order, each with its exact coefficient.
pub open spec fn spec_compute(
    fps: Seq<crate::app::chem::types::FingerprintData>,
    ids: Seq<crate::data::types::EntryID>,
    target: Seq<u32>,
    thr: Threshold,
    n: int,
) -> Seq<(TanimotoCoeff, crate::data::types::EntryID)>
    decreases n,
{
    if n <= 0 {
        Seq::empty()
    } else {
        let pre = spec_compute(fps, ids, target, thr, n - 1);
        let c = TanimotoCoeff {
            num: inter_count(fps[n - 1]@, target, fps[n - 1]@.len() as int) as u64,
            den: union_count(fps[n - 1]@, target, fps[n - 1]@.len() as int) as u64,
        };
        if c.spec_gt(thr) {
            pre + seq![(c, ids[n - 1])]
        } else {
            pre
        }
    }
}

/// Retention law: every retained entry's coefficient strictly exceeds
/// the threshold, and every entry whose coefficient does is retained.
pub proof fn lemma_compute_retention(
    fps: Seq<crate::app::chem::types::FingerprintData>,
    ids: Seq<crate::data::types::EntryID>,
    target: Seq<u32>,
    thr: Threshold,
    n: int,
)
    requires
        0 <= n <= fps.len() && n <= ids.len(),
    ensures
        forall|j: int| 0 <= j < spec_compute(fps, ids, target, thr, n).len() ==> (
        #[trigger] spec_compute(fps, ids, target, thr, n)[j]).0.spec_gt(thr),
        forall|i: int|
            0 <= i < n && (#[trigger] spec_coeff_at(fps, target, i)).spec_gt(thr) ==> spec_compute(
                fps,
                ids,
                target,
                thr,
                n,
            ).contains((spec_coeff_at(fps, target, i), ids[i])),
    decreases n,
{
    if n > 0 {
        lemma_compute_retention(fps, ids, target, thr, n - 1);
        let pre = spec_compute(fps, ids, target, thr, n - 1);
        let whole = spec_compute(fps, ids, target, thr, n);
        let c = spec_coeff_at(fps, target, n - 1);
        assert forall|j: int| 0 <= j < whole.len() implies (#[trigger] whole[j]).0.spec_gt(thr) by {
            if j < pre.len() {
                assert(whole[j] == pre[j]);
            }
        }
        assert forall|i: int|
            0 <= i < n && (#[trigger] spec_coeff_at(fps, target, i)).spec_gt(thr) implies whole
            .contains((spec_coeff_at(fps, target, i), ids[i])) by {
            if i < n - 1 {
                let e = (spec_coeff_at(fps, target, i), ids[i]);
                let j = choose|j: int| 0 <= j < pre.len() && pre[j] == e;
                assert(whole[j] == e);
            } else {
                assert(whole[whole.len() - 1] == (c, ids[n - 1]));
            }
        }
    }
}

/// The coefficient of entry `i` against the target fingerprint.
pub open spec fn spec_coeff_at(
    fps: Seq<crate::app::chem::types::FingerprintData>,
    target: Seq<u32>,
    i: int,
) -> TanimotoCoeff {
    TanimotoCoeff {
        num: inter_count(fps[i]@, target, fps[i]@.len() as int) as u64,
        den: union_count(fps[i]@, target, fps[i]@.len() as int) as u64,
    }
}

/// The similarity-search operator, configured with its fingerprint kind.
#[derive(Debug, Clone, PartialEq)]
pub struct Operator {
    pub fpk: crate::app::chem::kinds::Fingerprint,
}

impl Operator {
    pub fn from(fpk: crate::app::chem::kinds::Fingerprint) -> (r: Self)
        ensures
            r.fpk == fpk,
    {
        Operator { fpk }
    }

    /// Construction demands the matching operator kind.
    pub fn new(opk: &crate::kinds::Operator) -> (r: Self)
        requires
            opk is OpenBabelSimilaritySearching,
        ensures
            *opk == crate::kinds::Operator::OpenBabelSimilaritySearching(r.fpk),
    {
        match opk {
            crate::kinds::Operator::OpenBabelSimilaritySearching(fpk) => Operator { fpk: *fpk },
            _ => Operator { fpk: crate::app::chem::kinds::Fingerprint::default() },
        }
    }

    pub fn get_kind(&self) -> (r: crate::kinds::Operator)
        ensures
            r == crate::kinds::Operator::OpenBabelSimilaritySearching(self.fpk),
    {
        crate::kinds::Operator::OpenBabelSimilaritySearching(self.fpk)
    }

    /// Fetch and fingerprint the slice for one dividend; a store answer
    /// with mismatched identifier and structure counts is treated as no
    /// data.
    pub fn prepare_data<DS: crate::traits::TraitDataStore>(
        &self,
        dsk: &crate::kinds::Dataset,
        div_index: &crate::job::DividendIndex,
        ds: &DS,
    ) -> (r: Option<Data>)
        requires
            self.fpk.spec_width_ok(),
        ensures
            match r {
                Some(d) => d.wf_for(self.fpk.spec_name()) && d.dsk == *dsk,
                None => true,
            },
    {
        match ds.get_id_smiles_pairs(dsk, div_index) {
            Some((ids, smiles_vec)) => {
                if ids.len() == smiles_vec.len() {
                    Some(Data::new(*dsk, (ids, smiles_vec), &self.fpk))
                } else {
                    None
                }
            },
            None => None,
        }
    }

    /// Pure over the prepared data: the query is fingerprinted and every
    /// entry retained whose coefficient strictly exceeds the threshold.
    pub fn compute(
        &self,
        input: &Input,
        data: &Data,
        _div_index: &crate::job::DividendIndex,
    ) -> (r: Output)
        requires
            data.wf_for(self.fpk.spec_name()),
            self.fpk.spec_width_ok(),
            self.fpk.spec_pattern_file_free(),
        ensures
            r.results@ == spec_compute(
                data.fps@,
                data.ids@,
                clip_words(fingerprint_bits(self.fpk.spec_name(), input.smiles@)),
                input.threshold,
                data.fps@.len() as int,
            ),
    {
        let mut query: Vec<String> = Vec::new();
        query.push(input.smiles.clone());
        let mut raw = ob_fingerprints(&self.fpk, &query);
        let mut target = raw.pop().unwrap();
        proof {
            assert(target@ == fingerprint_bits(self.fpk.spec_name(), input.smiles@));
        }
        if target.len() > MAX_FP_WORDS {
            target.truncate(MAX_FP_WORDS);
        }
        let ghost tg = clip_words(fingerprint_bits(self.fpk.spec_name(), input.smiles@));
        proof {
            assert(target@ == tg);
        }
        let mut results: Vec<(TanimotoCoeff, crate::data::types::EntryID)> = Vec::new();
        let n = data.fps.len();
        let mut i: usize = 0;
        while i < n
            invariant
                i <= n,
                n == data.fps@.len(),
                data.wf_for(self.fpk.spec_name()),
                target@ == tg,
                target@.len() == clip_len(self.fpk.spec_name()),
                results@ == spec_compute(data.fps@, data.ids@, tg, input.threshold, i as int),
            decreases n - i,
        {
            let coeff = similarity_tanimoto(data.fps[i].as_slice(), target.as_slice());
            if coeff.gt(&input.threshold) {
                results.push((coeff, data.ids[i].clone()));
            }
            i += 1;
        }
        Output { results }
    }

    /// One dividend end to end: fetch the slice and run the search on
    /// it.  `None` exactly when the store hands out no data, so the
    /// dividend contributes nothing.  The store carries no contract, so
    /// all that can be promised is that some well-formed slice of this
    /// dataset explains the output; `compute` one call down says exactly
    /// what is returned for the slice it is given.
    pub fn compute_dividend<DS: crate::traits::TraitDataStore>(
        &self,
        input: &Input,
        dsk: &crate::kinds::Dataset,
        div_index: &crate::job::DividendIndex,
        ds: &DS,
    ) -> (r: Option<Output>)
        requires
            self.fpk.spec_width_ok(),
            self.fpk.spec_pattern_file_free(),
        ensures
            match r {
                Some(out) => exists|d: Data|
                    (#[trigger] d.wf_for(self.fpk.spec_name())) && d.dsk == *dsk
                        && out.results@ == spec_compute(
                        d.fps@,
                        d.ids@,
                        clip_words(fingerprint_bits(self.fpk.spec_name(), input.smiles@)),
                        input.threshold,
                        d.fps@.len() as int,
                    ),
                None => true,
            },
    {
        match self.prepare_data(dsk, div_index, ds) {
            Some(data) => {
                let out = self.compute(input, &data, div_index);
                proof {
                    assert(data.wf_for(self.fpk.spec_name()));
                }
                Some(out)
            },
            None => None,
        }
    }

    /// Merge one dividend's output into the kind-specific report, tagged
    /// with the computing-unit kind.
    pub fn report(
        &self,
        job_id: crate::job::ID,
        input: Input,
        data: &Data,
        output: Output,
    ) -> (r: Report)
        ensures
            r.job_id == job_id,
            r.cuk == (crate::kinds::ComputingUnit {
                opk: crate::kinds::Operator::OpenBabelSimilaritySearching(self.fpk),
                dsk: data.dsk,
            }),
            r.input == input,
            r.output == output,
    {
        Report {
            job_id,
            cuk: crate::kinds::ComputingUnit::new(self.get_kind(), data.dsk),
            input,
            output,
        }
    }
}

/// The persisted summary of a similarity-search job.
#[derive(Debug, Clone, PartialEq)]
pub struct Report {
    pub job_id: crate::job::ID,
    pub cuk: crate::kinds::ComputingUnit,
    pub input: Input,
    pub output: Output,
}

/// The canonical encoding of a threshold: its two delimited numbers.
pub open spec fn enc_threshold(t: Threshold) -> Seq<char> {
    enc_num(t.num as nat) + enc_num(t.den as nat)
}

pub open spec fn dec_threshold(s: Seq<char>) -> Option<(Threshold, Seq<char>)> {
    match dec_num_u64(s) {
        Some((num, r)) => match dec_num_u64(r) {
            Some((den, r2)) => Some((Threshold { num, den }, r2)),
            None => None,
        },
        None => None,
    }
}

pub proof fn lemma_dec_enc_threshold(t: Threshold, tail: Seq<char>)
    ensures
        dec_threshold(enc_threshold(t) + tail) == Some((t, tail)),
{
    assert(enc_threshold(t) + tail =~= enc_num(t.num as nat) + (enc_num(t.den as nat) + tail));
    lemma_dec_enc_num(t.num as nat, enc_num(t.den as nat) + tail);
    lemma_dec_enc_num(t.den as nat, tail);
}

pub fn encode_threshold(out: &mut String, t: &Threshold)
    ensures
        final(out)@ == old(out)@ + enc_threshold(*t),
{
    encode_num(out, t.num);
    encode_num(out, t.den);
    proof {
        assert(out@ =~= old(out)@ + enc_threshold(*t));
    }
}

pub fn decode_threshold(s: &str, pos: usize) -> (r: Option<(Threshold, usize)>)
    requires
        pos <= s@.len(),
    ensures
        match r {
            Some(vp) => pos <= vp.1 <= s@.len() && dec_threshold(
                s@.subrange(pos as int, s@.len() as int),
            ) == Some((vp.0, s@.subrange(vp.1 as int, s@.len() as int))),
            None => dec_threshold(s@.subrange(pos as int, s@.len() as int)) is None,
        },
{
    match decode_num_u64(s, pos) {
        Some((num, p1)) => match decode_num_u64(s, p1) {
            Some((den, p2)) => Some((Threshold { num, den }, p2)),
            None => None,
        },
        None => None,
    }
}

/// The canonical encoding of a coefficient: its two delimited counts.
pub open spec fn enc_coeff(c: TanimotoCoeff) -> Seq<char> {
    enc_num(c.num as nat) + enc_num(c.den as nat)
}

pub open spec fn dec_coeff(s: Seq<char>) -> Option<(TanimotoCoeff, Seq<char>)> {
    match dec_num_u64(s) {
        Some((num, r)) => match dec_num_u64(r) {
            Some((den, r2)) => Some((TanimotoCoeff { num, den }, r2)),
            None => None,
        },
        None => None,
    }
}

pub proof fn lemma_dec_enc_coeff(c: TanimotoCoeff, tail: Seq<char>)
    ensures
        dec_coeff(enc_coeff(c) + tail) == Some((c, tail)),
{
    assert(enc_coeff(c) + tail =~= enc_num(c.num as nat) + (enc_num(c.den as nat) + tail));
    lemma_dec_enc_num(c.num as nat, enc_num(c.den as nat) + tail);
    lemma_dec_enc_num(c.den as nat, tail);
}

pub fn encode_coeff(out: &mut String, c: &TanimotoCoeff)
    ensures
        final(out)@ == old(out)@ + enc_coeff(*c),
{
    encode_num(out, c.num);
    encode_num(out, c.den);
    proof {
        assert(out@ =~= old(out)@ + enc_coeff(*c));
    }
}

pub fn decode_coeff(s: &str, pos: usize) -> (r: Option<(TanimotoCoeff, usize)>)
    requires
        pos <= s@.len(),
    ensures
        match r {
            Some(vp) => pos <= vp.1 <= s@.len() && dec_coeff(
                s@.subrange(pos as int, s@.len() as int),
            ) == Some((vp.0, s@.subrange(vp.1 as int, s@.len() as int))),
            None => dec_coeff(s@.subrange(pos as int, s@.len() as int)) is None,
        },
{
    match decode_num_u64(s, pos) {
        Some((num, p1)) => match decode_num_u64(s, p1) {
            Some((den, p2)) => Some((TanimotoCoeff { num, den }, p2)),
            None => None,
        },
        None => None,
    }
}

/// The observable content of a similarity result entry.
pub type ResultRepr = (TanimotoCoeff, Seq<char>);

/// The canonical encoding of the result list: the delimited count, then
/// each coefficient and identifier.
pub open spec fn enc_result_items(v: Seq<ResultRepr>, n: int) -> Seq<char>
    decreases n,
{
    if n <= 0 {
        Seq::empty()
    } else {
        enc_result_items(v, n - 1) + enc_coeff(v[n - 1].0) + enc_str(v[n - 1].1)
    }
}

pub open spec fn enc_results(v: Seq<ResultRepr>) -> Seq<char> {
    enc_num(v.len()) + enc_result_items(v, v.len() as int)
}

pub open spec fn dec_result_items(s: Seq<char>, k: nat) -> Option<(Seq<ResultRepr>, Seq<char>)>
    decreases k,
{
    if k == 0 {
        Some((Seq::empty(), s))
    } else {
        match dec_coeff(s) {
            Some((c, r)) => match dec_str(r) {
                Some((id, r2)) => match dec_result_items(r2, (k - 1) as nat) {
                    Some((xs, r3)) => Some((seq![(c, id)] + xs, r3)),
                    None => None,
                },
                None => None,
            },
            None => None,
        }
    }
}

pub open spec fn dec_results(s: Seq<char>) -> Option<(Seq<ResultRepr>, Seq<char>)> {
    match crate::serial::dec_num(s) {
        Some((n, r)) => dec_result_items(r, n),
        None => None,
    }
}

proof fn lemma_enc_result_items_head(v: Seq<ResultRepr>, n: int)
    requires
        1 <= n <= v.len(),
    ensures
        enc_result_items(v, n) =~= enc_coeff(v[0].0) + enc_str(v[0].1) + enc_result_items(
            v.subrange(1, v.len() as int),
            n - 1,
        ),
    decreases n,
{
    let v1 = v.subrange(1, v.len() as int);
    if n == 1 {
        assert(enc_result_items(v, 0) == Seq::<char>::empty());
        assert(enc_result_items(v1, 0) == Seq::<char>::empty());
    } else {
        lemma_enc_result_items_head(v, n - 1);
        assert(v1[n - 2] == v[n - 1]);
    }
}

proof fn lemma_dec_enc_result_items(v: Seq<ResultRepr>, n: int, t: Seq<char>)
    requires
        0 <= n <= v.len(),
    ensures
        dec_result_items(enc_result_items(v, n) + t, n as nat) == Some((v.subrange(0, n), t)),
    decreases n,
{
    if n == 0 {
        assert(enc_result_items(v, 0) + t =~= t);
        assert(v.subrange(0, 0) =~= Seq::<ResultRepr>::empty());
    } else {
        let v1 = v.subrange(1, v.len() as int);
        lemma_enc_result_items_head(v, n);
        let t1 = enc_str(v[0].1) + (enc_result_items(v1, n - 1) + t);
        assert(enc_result_items(v, n) + t =~= enc_coeff(v[0].0) + t1);
        lemma_dec_enc_coeff(v[0].0, t1);
        lemma_dec_enc_str(v[0].1, enc_result_items(v1, n - 1) + t);
        lemma_dec_enc_result_items(v1, n - 1, t);
        assert(seq![(v[0].0, v[0].1)] + v1.subrange(0, n - 1) =~= v.subrange(0, n));
    }
}

pub proof fn lemma_dec_enc_results(v: Seq<ResultRepr>, t: Seq<char>)
    ensures
        dec_results(enc_results(v) + t) == Some((v, t)),
{
    let items = enc_result_items(v, v.len() as int);
    assert(enc_results(v) + t =~= enc_num(v.len()) + (items + t));
    lemma_dec_enc_num(v.len(), items + t);
    lemma_dec_enc_result_items(v, v.len() as int, t);
    assert(v.subrange(0, v.len() as int) =~= v);
}

/// The pair list's observable content.
pub open spec fn results_repr(v: Seq<(TanimotoCoeff, String)>) -> Seq<ResultRepr> {
    Seq::new(v.len(), |i: int| (v[i].0, v[i].1@))
}

pub fn encode_results(out: &mut String, v: &Vec<(TanimotoCoeff, String)>)
    ensures
        final(out)@ == old(out)@ + enc_results(results_repr(v@)),
{
    let n = v.len();
    encode_num(out, n as u64);
    let mut i: usize = 0;
    while i < n
        invariant
            i <= n,
            n == v@.len(),
            out@ == old(out)@ + enc_num(results_repr(v@).len()) + enc_result_items(
                results_repr(v@),
                i as int,
            ),
        decreases n - i,
    {
        encode_coeff(out, &v[i].0);
        encode_str(out, v[i].1.as_str());
        proof {
            assert(results_repr(v@)[i as int] == (v@[i as int].0, v@[i as int].1@));
        }
        i += 1;
    }
    proof {
        assert(out@ =~= old(out)@ + enc_results(results_repr(v@)));
    }
}

pub fn decode_results(s: &str, pos: usize) -> (r: Option<(Vec<(TanimotoCoeff, String)>, usize)>)
    requires
        pos <= s@.len(),
    ensures
        match r {
            Some(vp) => pos <= vp.1 <= s@.len() && dec_results(
                s@.subrange(pos as int, s@.len() as int),
            ) == Some((results_repr(vp.0@), s@.subrange(vp.1 as int, s@.len() as int))),
            None => dec_results(s@.subrange(pos as int, s@.len() as int)) is None,
        },
{
    let ghost whole = s@.subrange(pos as int, s@.len() as int);
    let len = s.unicode_len();
    match decode_num_u64(s, pos) {
        Some((count, p0)) => {
            let ghost after_count = s@.subrange(p0 as int, s@.len() as int);
            if count > (len as u64) {
                proof {
                    lemma_dec_result_items_needs_text(after_count, count as nat);
                }
                return None;
            }
            let count_us = count as usize;
            let mut acc: Vec<(TanimotoCoeff, String)> = Vec::new();
            let mut p: usize = p0;
            let mut k: usize = 0;
            while k < count_us
                invariant
                    k <= count_us,
                    pos <= p0 <= s@.len(),
                    pos <= p <= s@.len(),
                    len == s@.len(),
                    whole == s@.subrange(pos as int, s@.len() as int),
                    after_count == s@.subrange(p0 as int, s@.len() as int),
                    crate::serial::dec_num(whole) == Some((count_us as nat, after_count)),
                    acc@.len() == k,
                    dec_result_items(after_count, count_us as nat) == (match dec_result_items(
                        s@.subrange(p as int, s@.len() as int),
                        (count_us - k) as nat,
                    ) {
                        Some(p2) => Some((results_repr(acc@) + p2.0, p2.1)),
                        None => None,
                    }),
                decreases count_us - k,
            {
                let ghost cur = s@.subrange(p as int, s@.len() as int);
                match decode_coeff(s, p) {
                    Some((c, p1)) => {
                        match decode_str(s, p1) {
                            Some((id, p2)) => {
                                let ghost old_repr = results_repr(acc@);
                                acc.push((c, id));
                                proof {
                                    assert(results_repr(acc@) =~= old_repr + seq![
                                        (c, acc@[k as int].1@),
                                    ]);
                                    assert forall|q: (Seq<ResultRepr>, Seq<char>)|
                                        dec_result_items(
                                            s@.subrange(p2 as int, s@.len() as int),
                                            (count_us - k - 1) as nat,
                                        ) == Some(q) implies (old_repr + (seq![
                                        (c, acc@[k as int].1@),
                                    ] + q.0)) =~= (results_repr(acc@) + q.0) by {}
                                }
                                p = p2;
                                k += 1;
                            },
                            None => {
                                return None;
                            },
                        }
                    },
                    None => {
                        return None;
                    },
                }
            }
            proof {
                let cur = s@.subrange(p as int, s@.len() as int);
                assert(dec_result_items(cur, 0) == Some((Seq::<ResultRepr>::empty(), cur)));
                assert(results_repr(acc@) + Seq::<ResultRepr>::empty() =~= results_repr(acc@));
            }
            Some((acc, p))
        },
        None => {
            proof {
                if crate::serial::dec_num(whole) is Some {
                    let n = crate::serial::dec_num(whole).unwrap().0;
                    let r = crate::serial::dec_num(whole).unwrap().1;
                    assert(n > u64::MAX);
                    lemma_dec_rec_rest(whole, 0);
                    lemma_dec_result_items_needs_text(r, n);
                }
            }
            None
        },
    }
}

/// More result entries than characters cannot be decoded: each entry
/// takes at least one character.
proof fn lemma_dec_result_items_needs_text(s: Seq<char>, k: nat)
    requires
        k > s.len(),
    ensures
        dec_result_items(s, k) is None,
    decreases k,
{
    if dec_coeff(s) is Some {
        let r = dec_coeff(s).unwrap().1;
        proof_coeff_shrinks(s);
        if dec_str(r) is Some {
            let r2 = dec_str(r).unwrap().1;
            proof_str_shrinks(r);
            lemma_dec_result_items_needs_text(r2, (k - 1) as nat);
        }
    }
}

proof fn proof_coeff_shrinks(s: Seq<char>)
    requires
        dec_coeff(s) is Some,
    ensures
        dec_coeff(s).unwrap().1.len() < s.len(),
{
    lemma_dec_rec_rest(s, 0);
    let r1 = crate::serial::dec_num(s).unwrap().1;
    lemma_dec_rec_rest(r1, 0);
}

proof fn proof_str_shrinks(s: Seq<char>)
    requires
        dec_str(s) is Some,
    ensures
        dec_str(s).unwrap().1.len() < s.len(),
{
    lemma_dec_rec_rest(s, 0);
}

/// The canonical encoding of a similarity input: the query text, then
/// the threshold.
pub open spec fn enc_input(x: (Seq<char>, Threshold)) -> Seq<char> {
    enc_str(x.0) + enc_threshold(x.1)
}

pub open spec fn dec_input(s: Seq<char>) -> Option<((Seq<char>, Threshold), Seq<char>)> {
    match dec_str(s) {
        Some((sm, r)) => match dec_threshold(r) {
            Some((th, r2)) => Some(((sm, th), r2)),
            None => None,
        },
        None => None,
    }
}

pub proof fn lemma_dec_enc_input(x: (Seq<char>, Threshold), t: Seq<char>)
    ensures
        dec_input(enc_input(x) + t) == Some((x, t)),
{
    assert(enc_input(x) + t =~= enc_str(x.0) + (enc_threshold(x.1) + t));
    lemma_dec_enc_str(x.0, enc_threshold(x.1) + t);
    lemma_dec_enc_threshold(x.1, t);
}

pub fn encode_input(out: &mut String, x: &Input)
    ensures
        final(out)@ == old(out)@ + enc_input((x.smiles@, x.threshold)),
{
    encode_str(out, x.smiles.as_str());
    encode_threshold(out, &x.threshold);
    proof {
        assert(out@ =~= old(out)@ + enc_input((x.smiles@, x.threshold)));
    }
}

pub fn decode_input(s: &str, pos: usize) -> (r: Option<(Input, usize)>)
    requires
        pos <= s@.len(),
    ensures
        match r {
            Some(vp) => pos <= vp.1 <= s@.len() && dec_input(
                s@.subrange(pos as int, s@.len() as int),
            ) == Some(((vp.0.smiles@, vp.0.threshold), s@.subrange(vp.1 as int, s@.len() as int))),
            None => dec_input(s@.subrange(pos as int, s@.len() as int)) is None,
        },
{
    match decode_str(s, pos) {
        Some((sm, p1)) => match decode_threshold(s, p1) {
            Some((th, p2)) => Some((Input { smiles: sm, threshold: th }, p2)),
            None => None,
        },
        None => None,
    }
}

impl Serialization for Input {
    type Repr = (Seq<char>, Threshold);

    open spec fn repr(&self) -> (Seq<char>, Threshold) {
        (self.smiles@, self.threshold)
    }

    open spec fn serial(&self) -> Seq<char> {
        enc_input((self.smiles@, self.threshold))
    }

    open spec fn deserial(s: Seq<char>) -> Option<(Seq<char>, Threshold)> {
        match dec_input(s) {
            Some((v, r)) => if r.len() == 0 {
                Some(v)
            } else {
                None
            },
            None => None,
        }
    }

    fn ser_to(&self) -> (r: crate::traits::SerializedFormat) {
        let mut out = String::new();
        encode_input(&mut out, self);
        proof {
            assert(out@ =~= self.serial());
        }
        out
    }

    fn ser_from(content: &crate::traits::SerializedFormat) -> (r: Self) {
        let len = content.as_str().unicode_len();
        match decode_input(content.as_str(), 0) {
            Some((v, p)) => {
                proof {
                    assert(content@.subrange(0, content@.len() as int) =~= content@);
                }
                if p == len {
                    proof {
                        assert(content@.subrange(p as int, content@.len() as int).len() == 0);
                    }
                    v
                } else {
                    proof {
                        assert(content@.subrange(p as int, content@.len() as int).len() != 0);
                        assert(false);
                    }
                    unreached()
                }
            },
            None => {
                proof {
                    assert(content@.subrange(0, content@.len() as int) =~= content@);
                    assert(false);
                }
                unreached()
            },
        }
    }

    proof fn lemma_round_trip(&self) {
        lemma_dec_enc_input((self.smiles@, self.threshold), Seq::empty());
        assert(self.serial() + Seq::empty() =~= self.serial());
    }
}

impl crate::traits::TraitInput for Input {
    open spec fn is_default(&self) -> bool {
        self.smiles@ == "c1ccccc1N=O"@ && self.threshold == (Threshold { num: 1, den: 10 })
    }

    fn default() -> (r: Self) {
        Input { smiles: String::from_str("c1ccccc1N=O"), threshold: Threshold { num: 1, den: 10 } }
    }
}

impl Serialization for Output {
    type Repr = Seq<ResultRepr>;

    open spec fn repr(&self) -> Seq<ResultRepr> {
        results_repr(self.results@)
    }

    open spec fn serial(&self) -> Seq<char> {
        enc_results(results_repr(self.results@))
    }

    open spec fn deserial(s: Seq<char>) -> Option<Seq<ResultRepr>> {
        match dec_results(s) {
            Some((v, r)) => if r.len() == 0 {
                Some(v)
            } else {
                None
            },
            None => None,
        }
    }

    fn ser_to(&self) -> (r: crate::traits::SerializedFormat) {
        let mut out = String::new();
        encode_results(&mut out, &self.results);
        proof {
            assert(out@ =~= self.serial());
        }
        out
    }

    fn ser_from(content: &crate::traits::SerializedFormat) -> (r: Self) {
        let len = content.as_str().unicode_len();
        match decode_results(content.as_str(), 0) {
            Some((v, p)) => {
                proof {
                    assert(content@.subrange(0, content@.len() as int) =~= content@);
                }
                if p == len {
                    proof {
                        assert(content@.subrange(p as int, content@.len() as int).len() == 0);
                    }
                    Output { results: v }
                } else {
                    proof {
                        assert(content@.subrange(p as int, content@.len() as int).len() != 0);
                        assert(false);
                    }
                    unreached()
                }
            },
            None => {
                proof {
                    assert(content@.subrange(0, content@.len() as int) =~= content@);
                    assert(false);
                }
                unreached()
            },
        }
    }

    proof fn lemma_round_trip(&self) {
        lemma_dec_enc_results(results_repr(self.results@), Seq::empty());
        assert(self.serial() + Seq::empty() =~= self.serial());
    }
}

impl crate::traits::TraitOutput for Output {
    open spec fn is_blank(&self) -> bool {
        self.results@.len() == 0
    }

    fn blank() -> (r: Self) {
        Output { results: Vec::new() }
    }

    fn clear(&mut self) {
        self.results.clear();
    }

    fn append(&mut self, other: &mut Self) {
        self.results.append(&mut other.results);
    }

    fn len(&self) -> usize {
        self.results.len()
    }
}

/// The observable content of a similarity report.
pub type ReportRepr = (Seq<char>, crate::kinds::ComputingUnit, (Seq<char>, Threshold), Seq<ResultRepr>);

/// The canonical encoding of a similarity report: job identifier,
/// computing-unit kind, input and output, in that order.
pub open spec fn enc_report(x: ReportRepr) -> Seq<char> {
    enc_str(x.0) + enc_cu(x.1) + enc_input(x.2) + enc_results(x.3)
}

pub open spec fn dec_report(s: Seq<char>) -> Option<(ReportRepr, Seq<char>)> {
    match dec_str(s) {
        Some((jid, r)) => match dec_cu(r) {
            Some((cuk, r2)) => match dec_input(r2) {
                Some((inp, r3)) => match dec_results(r3) {
                    Some((outp, r4)) => Some(((jid, cuk, inp, outp), r4)),
                    None => None,
                },
                None => None,
            },
            None => None,
        },
        None => None,
    }
}

pub proof fn lemma_dec_enc_report(x: ReportRepr, t: Seq<char>)
    ensures
        dec_report(enc_report(x) + t) == Some((x, t)),
{
    let t3 = enc_results(x.3) + t;
    let t2 = enc_input(x.2) + t3;
    let t1 = enc_cu(x.1) + t2;
    assert(enc_report(x) + t =~= enc_str(x.0) + t1);
    lemma_dec_enc_str(x.0, t1);
    assert(t1 =~= enc_cu(x.1) + t2);
    lemma_dec_enc_cu(x.1, t2);
    lemma_dec_enc_input(x.2, t3);
    lemma_dec_enc_results(x.3, t);
}

impl Report {
    pub open spec fn spec_repr(self) -> ReportRepr {
        (
            self.job_id@,
            self.cuk,
            (self.input.smiles@, self.input.threshold),
            results_repr(self.output.results@),
        )
    }

    /// Assemble the report for one job from the echoed serialized input
    /// and the ordered serialized outputs, merging the outputs in order.
    pub fn new(
        t: (
            crate::job::ID,
            crate::kinds::ComputingUnit,
            &crate::traits::SerializedFormat,
            &Vec<crate::traits::SerializedFormat>,
        ),
    ) -> (r: Report)
        requires
            <Input as Serialization>::deserial(t.2@) is Some,
            forall|i: int| 0 <= i < t.3@.len() ==> <Output as Serialization>::deserial(
                (#[trigger] t.3@[i])@,
            ) is Some,
        ensures
            r.job_id == t.0,
            r.cuk == t.1,
            Some((r.input.smiles@, r.input.threshold)) == <Input as Serialization>::deserial(t.2@),
            results_repr(r.output.results@) == spec_merged_outputs(t.3@, t.3@.len() as int),
    {
        let (job_id, cuk, input_ser, output_sers) = t;
        let input = Input::ser_from(input_ser);
        let mut results: Vec<(TanimotoCoeff, crate::data::types::EntryID)> = Vec::new();
        let n = output_sers.len();
        let mut i: usize = 0;
        while i < n
            invariant
                i <= n,
                n == output_sers@.len(),
                forall|j: int| 0 <= j < n ==> <Output as Serialization>::deserial(
                    (#[trigger] output_sers@[j])@,
                ) is Some,
                results_repr(results@) == spec_merged_outputs(output_sers@, i as int),
            decreases n - i,
        {
            let mut part = Output::ser_from(&output_sers[i]);
            let ghost pre = results_repr(results@);
            let ghost part_repr = results_repr(part.results@);
            proof {
                assert(results_repr(results@) =~= pre + part_repr.subrange(0, 0));
            }
            let m = part.results.len();
            let mut k: usize = 0;
            while k < m
                invariant
                    k <= m,
                    m == part.results@.len(),
                    part_repr == results_repr(part.results@),
                    results_repr(results@) == pre + part_repr.subrange(0, k as int),
                decreases m - k,
            {
                let entry = (part.results[k].0, part.results[k].1.clone());
                proof {
                    assert(cloned::<String>(part.results@[k as int].1, entry.1));
                    assert(entry.1@ == part.results@[k as int].1@);
                }
                let ghost before = results@;
                results.push(entry);
                proof {
                    let lhs = results_repr(results@);
                    let rhs = pre + part_repr.subrange(0, k + 1);
                    assert(results@ == before.push(entry));
                    assert(part_repr.len() == part.results@.len());
                    assert(results_repr(before).len() == before.len());
                    assert(part_repr.subrange(0, k as int).len() == k);
                    assert(before.len() == pre.len() + k);
                    assert(lhs.len() == results@.len());
                    assert(rhs.len() == pre.len() + k + 1);
                    assert(lhs.len() == rhs.len());
                    assert forall|q: int| 0 <= q < lhs.len() implies lhs[q] == rhs[q] by {
                        if q < pre.len() + k {
                            assert(results@[q] == before[q]);
                            assert(lhs[q] == results_repr(before)[q]);
                            assert(rhs[q] == (pre + part_repr.subrange(0, k as int))[q]);
                        } else {
                            assert(results@[q] == entry);
                            assert(lhs[q] == (entry.0, entry.1@));
                            assert(rhs[q] == part_repr[k as int]);
                            assert(part_repr[k as int] == (
                                part.results@[k as int].0,
                                part.results@[k as int].1@,
                            ));
                        }
                    }
                    assert(lhs =~= rhs);
                }
                k += 1;
            }
            proof {
                assert(part_repr.subrange(0, m as int) =~= part_repr);
            }
            i += 1;
        }
        Report { job_id, cuk, input, output: Output { results } }
    }
}

/// The concatenation, in order, of what the first `n` serialized outputs
/// decode to.
pub open spec fn spec_merged_outputs(sers: Seq<String>, n: int) -> Seq<ResultRepr>
    decreases n,
{
    if n <= 0 {
        Seq::empty()
    } else {
        spec_merged_outputs(sers, n - 1) + (match <Output as Serialization>::deserial(
            sers[n - 1]@,
        ) {
            Some(v) => v,
            None => Seq::empty(),
        })
    }
}


impl Report {
    /// Merge another report's output into this one, keeping this
    /// report's identity; the outputs are concatenated in order.
    pub fn extend(&mut self, other: Report)
        ensures
            final(self).job_id == old(self).job_id,
            final(self).cuk == old(self).cuk,
            final(self).input == old(self).input,
            final(self).output.results@ == old(self).output.results@ + other.output.results@,
    {
        let mut tail = other.output.results;
        self.output.results.append(&mut tail);
    }
}

/// Parse a whole report at character position `pos`.
pub fn decode_report(s: &str, pos: usize) -> (r: Option<(Report, usize)>)
    requires
        pos <= s@.len(),
    ensures
        match r {
            Some(vp) => pos <= vp.1 <= s@.len() && dec_report(
                s@.subrange(pos as int, s@.len() as int),
            ) == Some((vp.0.spec_repr(), s@.subrange(vp.1 as int, s@.len() as int))),
            None => dec_report(s@.subrange(pos as int, s@.len() as int)) is None,
        },
{
    match decode_str(s, pos) {
        Some((jid, p1)) => match decode_cu(s, p1) {
            Some((cuk, p2)) => match decode_input(s, p2) {
                Some((inp, p3)) => match decode_results(s, p3) {
                    Some((outp, p4)) => Some(
                        (
                            Report { job_id: jid, cuk, input: inp, output: Output { results: outp } },
                            p4,
                        ),
                    ),
                    None => None,
                },
                None => None,
            },
            None => None,
        },
        None => None,
    }
}

impl Serialization for Report {
    type Repr = ReportRepr;

    open spec fn repr(&self) -> ReportRepr {
        self.spec_repr()
    }

    open spec fn serial(&self) -> Seq<char> {
        enc_report(self.spec_repr())
    }

    open spec fn deserial(s: Seq<char>) -> Option<ReportRepr> {
        match dec_report(s) {
            Some((v, r)) => if r.len() == 0 {
                Some(v)
            } else {
                None
            },
            None => None,
        }
    }

    fn ser_to(&self) -> (r: crate::traits::SerializedFormat) {
        let mut out = String::new();
        encode_str(&mut out, self.job_id.as_str());
        encode_cu(&mut out, &self.cuk);
        encode_input(&mut out, &self.input);
        encode_results(&mut out, &self.output.results);
        proof {
            assert(out@ =~= self.serial());
        }
        out
    }

    fn ser_from(content: &crate::traits::SerializedFormat) -> (r: Self) {
        let len = content.as_str().unicode_len();
        proof {
            assert(content@.subrange(0, content@.len() as int) =~= content@);
        }
        match decode_report(content.as_str(), 0) {
            Some((report, p)) => {
                if p == len {
                    proof {
                        assert(content@.subrange(p as int, content@.len() as int).len() == 0);
                    }
                    report
                } else {
                    proof {
                        assert(content@.subrange(p as int, content@.len() as int).len() != 0);
                        assert(false);
                    }
                    unreached()
                }
            },
            None => {
                proof {
                    assert(false);
                }
                unreached()
            },
        }
    }

    proof fn lemma_round_trip(&self) {
        lemma_dec_enc_report(self.spec_repr(), Seq::empty());
        assert(self.serial() + Seq::empty() =~= self.serial());
    }
}

/// One similarity computation held together: the operator, its current
/// input, the prepared data, and the accumulated output.
#[derive(Debug, Clone, PartialEq)]
pub struct ComputingUnit {
    pub op: Operator,
    pub input: Input,
    pub data: Data,
    pub output: Output,
}

impl ComputingUnit {
    /// The unit's operator is within the verified envelope and its data
    /// was prepared for the operator's fingerprint kind.
    pub open spec fn wf(self) -> bool {
        &&& self.op.fpk.spec_width_ok()
        &&& self.op.fpk.spec_pattern_file_free()
        &&& self.data.wf_for(self.op.fpk.spec_name())
    }

    /// A fresh unit for this fingerprint kind, with the default input,
    /// no data and no output.
    pub fn from(fpk: crate::app::chem::kinds::Fingerprint) -> (r: Self)
        requires
            fpk.spec_width_ok(),
            fpk.spec_pattern_file_free(),
        ensures
            r.wf(),
            r.op.fpk == fpk,
            r.input.is_default(),
            r.data.ids@.len() == 0 && r.data.fps@.len() == 0,
            r.output.results@.len() == 0,
    {
        ComputingUnit {
            op: Operator::from(fpk),
            input: TraitInput::default(),
            data: Data { dsk: crate::kinds::Dataset::Empty, ids: Vec::new(), fps: Vec::new() },
            output: Output { results: Vec::new() },
        }
    }

    /// Take the job's serialized input as this unit's input.
    pub fn set_input(&mut self, input_ser: &crate::traits::SerializedFormat)
        requires
            <Input as Serialization>::deserial(input_ser@) is Some,
        ensures
            final(self).op == old(self).op,
            final(self).data == old(self).data,
            final(self).output == old(self).output,
            Some((final(self).input.smiles@, final(self).input.threshold))
                == <Input as Serialization>::deserial(input_ser@),
            old(self).wf() ==> final(self).wf(),
    {
        self.input = Input::ser_from(input_ser);
    }

    /// Prepare this unit's data from a whole in-memory document.
    pub fn set_data(&mut self, dsk: &crate::kinds::Dataset, doc: &crate::data::DocSMILES)
        requires
            doc.wf(),
            old(self).op.fpk.spec_width_ok(),
            old(self).op.fpk.spec_pattern_file_free(),
        ensures
            final(self).op == old(self).op,
            final(self).input == old(self).input,
            final(self).output == old(self).output,
            final(self).wf(),
            final(self).data.dsk == *dsk,
            final(self).data.ids@ == doc.ids@,
    {
        self.data = Data::from((&self.op.fpk, dsk, doc));
    }

    /// Run the search on the prepared data and append what it retains to
    /// the accumulated output.
    pub fn compute(&mut self)
        requires
            old(self).wf(),
        ensures
            final(self).op == old(self).op,
            final(self).input == old(self).input,
            final(self).data == old(self).data,
            final(self).wf(),
            final(self).output.results@ == old(self).output.results@ + spec_compute(
                old(self).data.fps@,
                old(self).data.ids@,
                clip_words(
                    fingerprint_bits(old(self).op.fpk.spec_name(), old(self).input.smiles@),
                ),
                old(self).input.threshold,
                old(self).data.fps@.len() as int,
            ),
    {
        let mut fresh = self.op.compute(&self.input, &self.data, &(0, 1));
        self.output.results.append(&mut fresh.results);
    }

    pub fn get_output_len(&self) -> (r: usize)
        ensures
            r == self.output.results@.len(),
    {
        self.output.results.len()
    }
}

} // verus!
