//! OpenBabel substructure matching.
//!
//! A compiled query pattern is matched against each candidate structure;
//! a structure is retained exactly when at least one embedding exists.
//! A match result lists the atom indices of each embedding, in whatever
//! order and multiplicity the matching primitive returns them.

use vstd::prelude::*;
use crate::kinds::cu::{dec_cu, decode_cu, enc_cu, encode_cu, lemma_dec_enc_cu};
use crate::serial::{
    dec_i32, dec_num, dec_str, decode_i32, decode_num_u64, decode_str, enc_i32, enc_num, enc_str,
    encode_i32, encode_num, encode_str, lemma_dec_enc_i32, lemma_dec_enc_num, lemma_dec_enc_str,
    lemma_dec_rec_rest,
};
use crate::traits::{Serialization, TraitInput};

verus! {

/// One atom-index list per embedding of the pattern.
pub type MatchResult = Vec<Vec<i32>>;

/// What openbabel's matcher returns for one SMARTS pattern on one SMILES
/// string: the embeddings, each an atom-index list, or the empty sequence
/// when the structure does not parse.
pub uninterp spec fn ss_match_lists(smarts: Seq<char>, smiles: Seq<char>) -> Seq<Seq<i32>>;

/// Relies on openbabel's SmartsPattern: compiles the pattern and matches
/// it against the molecule parsed from the SMILES string.  The embeddings
/// are a function of the two texts alone.  A structure that does not
/// parse gives a null molecule which the matcher would dereference, so it
/// is answered with no embeddings instead.
#[verifier::external_body]
fn ob_find_match(smarts: &str, smiles: &str) -> (r: MatchResult)
    ensures
        r.deep_view() == ss_match_lists(smarts@, smiles@),
{
    let mol = openbabel::molecule::Molecule::new_from_smiles(smiles);
    if !mol.is_valid() {
        return Vec::new();
    }
    let sp = openbabel::smartspattern::SmartsPattern::new_from_smarts(smarts);
    sp.find_match(&mol)
}

/// A query pattern, held with the text it was compiled from.
#[derive(Debug, Clone, PartialEq)]
pub struct OpenBabelSSMatcher {
    pub smarts: crate::app::chem::types::SMARTS,
}

impl OpenBabelSSMatcher {
    pub fn new(smarts: &crate::app::chem::types::SMARTS) -> (r: Self)
        ensures
            r.smarts@ == smarts@,
    {
        OpenBabelSSMatcher { smarts: smarts.clone() }
    }

    /// The embeddings of the pattern in the given structure.
    pub fn find_match(&self, smiles: &str) -> (r: MatchResult)
        ensures
            r.deep_view() == ss_match_lists(self.smarts@, smiles@),
    {
        ob_find_match(self.smarts.as_str(), smiles)
    }
}

/// Input of a substructure match: the query pattern.
#[derive(Debug, Clone, PartialEq)]
pub struct Input {
    pub smarts: crate::app::chem::types::SMARTS,
}

/// Output of a substructure match: the retained entries, each with the
/// embeddings found in it.
#[derive(Debug, Clone, PartialEq)]
pub struct Output {
    pub results: Vec<(MatchResult, crate::data::types::EntryID)>,
}

/// The prepared slice of a corpus: entry identifiers beside their
/// structures.
#[derive(Debug, Clone, PartialEq)]
pub struct Data {
    pub dsk: crate::kinds::Dataset,
    pub ids: Vec<crate::data::types::EntryID>,
    pub smiles: Vec<crate::app::chem::types::SMILES>,
}

impl Data {
    /// One structure per entry.
    pub open spec fn wf(self) -> bool {
        self.ids@.len() == self.smiles@.len()
    }

    pub fn new(
        dsk: crate::kinds::Dataset,
        pairs: crate::app::chem::types::IdSmilesPairs,
    ) -> (r: Data)
        requires
            pairs.0@.len() == pairs.1@.len(),
        ensures
            r.wf(),
            r.dsk == dsk,
            r.ids == pairs.0,
            r.smiles == pairs.1,
    {
        let (ids, smiles) = pairs;
        Data { dsk, ids, smiles }
    }

    /// The slice built from a whole in-memory document.
    pub fn from(t: (&crate::kinds::Dataset, &crate::data::DocSMILES)) -> (r: Data)
        requires
            t.1.wf(),
        ensures
            r.wf(),
            r.dsk == *t.0,
            r.ids@ == t.1.ids@,
            r.smiles@ == t.1.smiles@,
    {
        let (dsk, doc) = t;
        let ids_c = doc.get_ids().clone();
        let smiles_c = doc.get_smiles_vec().clone();
        proof {
            assert forall|i: int| 0 <= i < ids_c@.len() implies ids_c@[i] == doc.ids@[i] by {
                assert(cloned::<String>(doc.ids@[i], ids_c@[i]));
            }
            assert(ids_c@ =~= doc.ids@);
            assert forall|i: int| 0 <= i < smiles_c@.len() implies smiles_c@[i] == doc.smiles@[i] by {
                assert(cloned::<String>(doc.smiles@[i], smiles_c@[i]));
            }
            assert(smiles_c@ =~= doc.smiles@);
        }
        Data { dsk: *dsk, ids: ids_c, smiles: smiles_c }
    }
}

impl crate::traits::TraitData for Data {
    fn blank() -> Self {
        Data { dsk: crate::kinds::Dataset::Empty, ids: Vec::new(), smiles: Vec::new() }
    }

    fn len(&self) -> usize {
        self.ids.len()
    }
}

/// What a substructure match returns on a slice: the entries with at
/// least one embedding, in slice order, each with its embeddings.
pub open spec fn spec_compute(
    smiles: Seq<crate::app::chem::types::SMILES>,
    ids: Seq<crate::data::types::EntryID>,
    smarts: Seq<char>,
    n: int,
) -> Seq<(Seq<Seq<i32>>, Seq<char>)>
    decreases n,
{
    if n <= 0 {
        Seq::empty()
    } else {
        let pre = spec_compute(smiles, ids, smarts, n - 1);
        let m = ss_match_lists(smarts, smiles[n - 1]@);
        if m.len() > 0 {
            pre + seq![(m, ids[n - 1]@)]
        } else {
            pre
        }
    }
}

/// Retention law: every retained entry carries at least one embedding,
/// and every structure with an embedding is retained with exactly the
/// embeddings found in it.
pub proof fn lemma_compute_retention(
    smiles: Seq<crate::app::chem::types::SMILES>,
    ids: Seq<crate::data::types::EntryID>,
    smarts: Seq<char>,
    n: int,
)
    requires
        0 <= n <= smiles.len() && n <= ids.len(),
    ensures
        forall|j: int| 0 <= j < spec_compute(smiles, ids, smarts, n).len() ==> (
        #[trigger] spec_compute(smiles, ids, smarts, n)[j]).0.len() > 0,
        forall|i: int|
            0 <= i < n && (#[trigger] ss_match_lists(smarts, smiles[i]@)).len() > 0
                ==> spec_compute(smiles, ids, smarts, n).contains(
                (ss_match_lists(smarts, smiles[i]@), ids[i]@),
            ),
    decreases n,
{
    if n > 0 {
        lemma_compute_retention(smiles, ids, smarts, n - 1);
        let pre = spec_compute(smiles, ids, smarts, n - 1);
        let whole = spec_compute(smiles, ids, smarts, n);
        let m = ss_match_lists(smarts, smiles[n - 1]@);
        assert forall|j: int| 0 <= j < whole.len() implies (#[trigger] whole[j]).0.len() > 0 by {
            if j < pre.len() {
                assert(whole[j] == pre[j]);
            }
        }
        assert forall|i: int|
            0 <= i < n && (#[trigger] ss_match_lists(smarts, smiles[i]@)).len() > 0 implies whole
            .contains((ss_match_lists(smarts, smiles[i]@), ids[i]@)) by {
            if i < n - 1 {
                let e = (ss_match_lists(smarts, smiles[i]@), ids[i]@);
                let j = choose|j: int| 0 <= j < pre.len() && pre[j] == e;
                assert(whole[j] == e);
            } else {
                assert(whole[whole.len() - 1] == (m, ids[n - 1]@));
            }
        }
    }
}

/// The substructure-match operator.
#[derive(Debug, Clone, PartialEq)]
pub struct Operator {}

impl Operator {
    /// Construction demands the matching operator kind.
    pub fn new(opk: &crate::kinds::Operator) -> (r: Self)
        requires
            opk is OpenBabelSSMatching,
    {
        Operator {  }
    }

    pub fn get_kind(&self) -> (r: crate::kinds::Operator)
        ensures
            r == crate::kinds::Operator::OpenBabelSSMatching,
    {
        crate::kinds::Operator::OpenBabelSSMatching
    }

    /// Fetch the slice for one dividend; a store answer with mismatched
    /// identifier and structure counts is treated as no data.
    pub fn prepare_data<DS: crate::traits::TraitDataStore>(
        &self,
        dsk: &crate::kinds::Dataset,
        div_index: &crate::job::DividendIndex,
        ds: &DS,
    ) -> (r: Option<Data>)
        ensures
            match r {
                Some(d) => d.wf() && d.dsk == *dsk,
                None => true,
            },
    {
        match ds.get_id_smiles_pairs(dsk, div_index) {
            Some((ids, smiles_vec)) => {
                if ids.len() == smiles_vec.len() {
                    Some(Data::new(*dsk, (ids, smiles_vec)))
                } else {
                    None
                }
            },
            None => None,
        }
    }

    /// Pure over the prepared data: each structure is matched against the
    /// pattern and retained exactly when one or more embeddings exist.
    pub fn compute(
        &self,
        input: &Input,
        data: &Data,
        _div_index: &crate::job::DividendIndex,
    ) -> (r: Output)
        requires
            data.wf(),
        ensures
            r.results.deep_view() == spec_compute(
                data.smiles@,
                data.ids@,
                input.smarts@,
                data.smiles@.len() as int,
            ),
    {
        let matcher = OpenBabelSSMatcher::new(&input.smarts);
        let mut results: Vec<(MatchResult, crate::data::types::EntryID)> = Vec::new();
        let n = data.smiles.len();
        let mut i: usize = 0;
        while i < n
            invariant
                i <= n,
                data.wf(),
                n == data.smiles@.len(),
                matcher.smarts@ == input.smarts@,
                results.deep_view() == spec_compute(data.smiles@, data.ids@, input.smarts@, i as int),
            decreases n - i,
        {
            let mr = matcher.find_match(data.smiles[i].as_str());
            let ghost pre = results.deep_view();
            if mr.len() > 0 {
                proof {
                    assert(mr.deep_view().len() == mr@.len());
                }
                results.push((mr, data.ids[i].clone()));
                proof {
                    assert(results.deep_view() =~= pre + seq![
                        (
                            ss_match_lists(input.smarts@, data.smiles@[i as int]@),
                            data.ids@[i as int]@,
                        ),
                    ]);
                }
            } else {
                proof {
                    assert(mr.deep_view().len() == mr@.len());
                }
            }
            i += 1;
        }
        Output { results }
    }

    /// Merge one dividend's output into the kind-specific report, tagged
    /// with the computing-unit kind.
    pub fn report(
        &self,
        job_id: crate::job::ID,
        input: Input,
        data: &Data,
        output: Output,
    ) -> (r: Report)
        ensures
            r.job_id == job_id,
            r.cuk == (crate::kinds::ComputingUnit {
                opk: crate::kinds::Operator::OpenBabelSSMatching,
                dsk: data.dsk,
            }),
            r.input == input,
            r.output == output,
    {
        Report {
            job_id,
            cuk: crate::kinds::ComputingUnit::new(self.get_kind(), data.dsk),
            input,
            output,
        }
    }
}

/// The persisted summary of a substructure-match job.
#[derive(Debug, Clone, PartialEq)]
pub struct Report {
    pub job_id: crate::job::ID,
    pub cuk: crate::kinds::ComputingUnit,
    pub input: Input,
    pub output: Output,
}

/// The canonical encoding of one atom-index list: the delimited count,
/// then each index.
pub open spec fn enc_int_items(v: Seq<i32>, n: int) -> Seq<char>
    decreases n,
{
    if n <= 0 {
        Seq::empty()
    } else {
        enc_int_items(v, n - 1) + enc_i32(v[n - 1])
    }
}

pub open spec fn enc_ints(v: Seq<i32>) -> Seq<char> {
    enc_num(v.len()) + enc_int_items(v, v.len() as int)
}

pub open spec fn dec_int_items(s: Seq<char>, k: nat) -> Option<(Seq<i32>, Seq<char>)>
    decreases k,
{
    if k == 0 {
        Some((Seq::empty(), s))
    } else {
        match dec_i32(s) {
            Some((x, r)) => match dec_int_items(r, (k - 1) as nat) {
                Some((xs, r2)) => Some((seq![x] + xs, r2)),
                None => None,
            },
            None => None,
        }
    }
}

pub open spec fn dec_ints(s: Seq<char>) -> Option<(Seq<i32>, Seq<char>)> {
    match dec_num(s) {
        Some((n, r)) => dec_int_items(r, n),
        None => None,
    }
}

proof fn lemma_enc_int_items_head(v: Seq<i32>, n: int)
    requires
        1 <= n <= v.len(),
    ensures
        enc_int_items(v, n) =~= enc_i32(v[0]) + enc_int_items(v.subrange(1, v.len() as int), n - 1),
    decreases n,
{
    let v1 = v.subrange(1, v.len() as int);
    if n == 1 {
        assert(enc_int_items(v, 0) == Seq::<char>::empty());
        assert(enc_int_items(v1, 0) == Seq::<char>::empty());
    } else {
        lemma_enc_int_items_head(v, n - 1);
        assert(v1[n - 2] == v[n - 1]);
    }
}

proof fn lemma_dec_enc_int_items(v: Seq<i32>, n: int, t: Seq<char>)
    requires
        0 <= n <= v.len(),
    ensures
        dec_int_items(enc_int_items(v, n) + t, n as nat) == Some((v.subrange(0, n), t)),
    decreases n,
{
    if n == 0 {
        assert(enc_int_items(v, 0) + t =~= t);
        assert(v.subrange(0, 0) =~= Seq::<i32>::empty());
    } else {
        let v1 = v.subrange(1, v.len() as int);
        lemma_enc_int_items_head(v, n);
        assert(enc_int_items(v, n) + t =~= enc_i32(v[0]) + (enc_int_items(v1, n - 1) + t));
        lemma_dec_enc_i32(v[0], enc_int_items(v1, n - 1) + t);
        lemma_dec_enc_int_items(v1, n - 1, t);
        assert(seq![v[0]] + v1.subrange(0, n - 1) =~= v.subrange(0, n));
    }
}

pub proof fn lemma_dec_enc_ints(v: Seq<i32>, t: Seq<char>)
    ensures
        dec_ints(enc_ints(v) + t) == Some((v, t)),
{
    let items = enc_int_items(v, v.len() as int);
    assert(enc_ints(v) + t =~= enc_num(v.len()) + (items + t));
    lemma_dec_enc_num(v.len(), items + t);
    lemma_dec_enc_int_items(v, v.len() as int, t);
    assert(v.subrange(0, v.len() as int) =~= v);
}

proof fn lemma_dec_i32_shrinks(s: Seq<char>)
    requires
        dec_i32(s) is Some,
    ensures
        dec_i32(s).unwrap().1.len() < s.len(),
{
    if s.len() >= 1 && s[0] == '-' {
        lemma_dec_rec_rest(s.subrange(1, s.len() as int), 0);
    } else {
        lemma_dec_rec_rest(s, 0);
    }
}

proof fn lemma_dec_int_items_needs_text(s: Seq<char>, k: nat)
    requires
        k > s.len(),
    ensures
        dec_int_items(s, k) is None,
    decreases k,
{
    if dec_i32(s) is Some {
        let r = dec_i32(s).unwrap().1;
        lemma_dec_i32_shrinks(s);
        lemma_dec_int_items_needs_text(r, (k - 1) as nat);
    }
}

proof fn lemma_dec_int_items_rest(s: Seq<char>, k: nat)
    ensures
        dec_int_items(s, k) is Some ==> dec_int_items(s, k).unwrap().1.len() <= s.len(),
    decreases k,
{
    if k > 0 && dec_i32(s) is Some {
        let r = dec_i32(s).unwrap().1;
        lemma_dec_i32_shrinks(s);
        lemma_dec_int_items_rest(r, (k - 1) as nat);
    }
}

/// A successful atom-list parse always consumes at least one character.
proof fn lemma_dec_ints_shrinks(s: Seq<char>)
    requires
        dec_ints(s) is Some,
    ensures
        dec_ints(s).unwrap().1.len() < s.len(),
{
    lemma_dec_rec_rest(s, 0);
    let r = dec_num(s).unwrap().1;
    let n = dec_num(s).unwrap().0;
    lemma_dec_int_items_rest(r, n);
}

pub fn encode_ints(out: &mut String, v: &Vec<i32>)
    ensures
        final(out)@ == old(out)@ + enc_ints(v@),
{
    let n = v.len();
    encode_num(out, n as u64);
    let mut i: usize = 0;
    while i < n
        invariant
            i <= n,
            n == v@.len(),
            out@ == old(out)@ + enc_num(v@.len()) + enc_int_items(v@, i as int),
        decreases n - i,
    {
        encode_i32(out, v[i]);
        i += 1;
    }
    proof {
        assert(out@ =~= old(out)@ + enc_ints(v@));
    }
}

pub fn decode_ints(s: &str, pos: usize) -> (r: Option<(Vec<i32>, usize)>)
    requires
        pos <= s@.len(),
    ensures
        match r {
            Some(vp) => pos <= vp.1 <= s@.len() && dec_ints(
                s@.subrange(pos as int, s@.len() as int),
            ) == Some((vp.0@, s@.subrange(vp.1 as int, s@.len() as int))),
            None => dec_ints(s@.subrange(pos as int, s@.len() as int)) is None,
        },
{
    let ghost whole = s@.subrange(pos as int, s@.len() as int);
    let len = s.unicode_len();
    match decode_num_u64(s, pos) {
        Some((count, p0)) => {
            let ghost after_count = s@.subrange(p0 as int, s@.len() as int);
            if count > (len as u64) {
                proof {
                    lemma_dec_int_items_needs_text(after_count, count as nat);
                }
                return None;
            }
            let count_us = count as usize;
            let mut acc: Vec<i32> = Vec::new();
            let mut p: usize = p0;
            let mut k: usize = 0;
            while k < count_us
                invariant
                    k <= count_us,
                    pos <= p0 <= s@.len(),
                    pos <= p <= s@.len(),
                    len == s@.len(),
                    whole == s@.subrange(pos as int, s@.len() as int),
                    after_count == s@.subrange(p0 as int, s@.len() as int),
                    dec_num(whole) == Some((count_us as nat, after_count)),
                    acc@.len() == k,
                    dec_int_items(after_count, count_us as nat) == (match dec_int_items(
                        s@.subrange(p as int, s@.len() as int),
                        (count_us - k) as nat,
                    ) {
                        Some(p2) => Some((acc@ + p2.0, p2.1)),
                        None => None,
                    }),
                decreases count_us - k,
            {
                match decode_i32(s, p) {
                    Some((x, p2)) => {
                        let ghost old_acc = acc@;
                        acc.push(x);
                        proof {
                            assert(acc@ =~= old_acc + seq![x]);
                            assert forall|q: (Seq<i32>, Seq<char>)|
                                dec_int_items(
                                    s@.subrange(p2 as int, s@.len() as int),
                                    (count_us - k - 1) as nat,
                                ) == Some(q) implies (old_acc + (seq![x] + q.0)) =~= (acc@ + q.0) by {}
                        }
                        p = p2;
                        k += 1;
                    },
                    None => {
                        return None;
                    },
                }
            }
            proof {
                let cur = s@.subrange(p as int, s@.len() as int);
                assert(dec_int_items(cur, 0) == Some((Seq::<i32>::empty(), cur)));
                assert(acc@ + Seq::<i32>::empty() =~= acc@);
            }
            Some((acc, p))
        },
        None => {
            proof {
                if dec_num(whole) is Some {
                    let n = dec_num(whole).unwrap().0;
                    let r = dec_num(whole).unwrap().1;
                    assert(n > u64::MAX);
                    lemma_dec_rec_rest(whole, 0);
                    lemma_dec_int_items_needs_text(r, n);
                }
            }
            None
        },
    }
}

/// The canonical encoding of a match result: the delimited embedding
/// count, then each atom-index list.
pub open spec fn enc_mr_items(v: Seq<Seq<i32>>, n: int) -> Seq<char>
    decreases n,
{
    if n <= 0 {
        Seq::empty()
    } else {
        enc_mr_items(v, n - 1) + enc_ints(v[n - 1])
    }
}

pub open spec fn enc_mr(v: Seq<Seq<i32>>) -> Seq<char> {
    enc_num(v.len()) + enc_mr_items(v, v.len() as int)
}

pub open spec fn dec_mr_items(s: Seq<char>, k: nat) -> Option<(Seq<Seq<i32>>, Seq<char>)>
    decreases k,
{
    if k == 0 {
        Some((Seq::empty(), s))
    } else {
        match dec_ints(s) {
            Some((x, r)) => match dec_mr_items(r, (k - 1) as nat) {
                Some((xs, r2)) => Some((seq![x] + xs, r2)),
                None => None,
            },
            None => None,
        }
    }
}

pub open spec fn dec_mr(s: Seq<char>) -> Option<(Seq<Seq<i32>>, Seq<char>)> {
    match dec_num(s) {
        Some((n, r)) => dec_mr_items(r, n),
        None => None,
    }
}

proof fn lemma_enc_mr_items_head(v: Seq<Seq<i32>>, n: int)
    requires
        1 <= n <= v.len(),
    ensures
        enc_mr_items(v, n) =~= enc_ints(v[0]) + enc_mr_items(v.subrange(1, v.len() as int), n - 1),
    decreases n,
{
    let v1 = v.subrange(1, v.len() as int);
    if n == 1 {
        assert(enc_mr_items(v, 0) == Seq::<char>::empty());
        assert(enc_mr_items(v1, 0) == Seq::<char>::empty());
    } else {
        lemma_enc_mr_items_head(v, n - 1);
        assert(v1[n - 2] == v[n - 1]);
    }
}

proof fn lemma_dec_enc_mr_items(v: Seq<Seq<i32>>, n: int, t: Seq<char>)
    requires
        0 <= n <= v.len(),
    ensures
        dec_mr_items(enc_mr_items(v, n) + t, n as nat) == Some((v.subrange(0, n), t)),
    decreases n,
{
    if n == 0 {
        assert(enc_mr_items(v, 0) + t =~= t);
        assert(v.subrange(0, 0) =~= Seq::<Seq<i32>>::empty());
    } else {
        let v1 = v.subrange(1, v.len() as int);
        lemma_enc_mr_items_head(v, n);
        assert(enc_mr_items(v, n) + t =~= enc_ints(v[0]) + (enc_mr_items(v1, n - 1) + t));
        lemma_dec_enc_ints(v[0], enc_mr_items(v1, n - 1) + t);
        lemma_dec_enc_mr_items(v1, n - 1, t);
        assert(seq![v[0]] + v1.subrange(0, n - 1) =~= v.subrange(0, n));
    }
}

pub proof fn lemma_dec_enc_mr(v: Seq<Seq<i32>>, t: Seq<char>)
    ensures
        dec_mr(enc_mr(v) + t) == Some((v, t)),
{
    let items = enc_mr_items(v, v.len() as int);
    assert(enc_mr(v) + t =~= enc_num(v.len()) + (items + t));
    lemma_dec_enc_num(v.len(), items + t);
    lemma_dec_enc_mr_items(v, v.len() as int, t);
    assert(v.subrange(0, v.len() as int) =~= v);
}

proof fn lemma_dec_mr_items_needs_text(s: Seq<char>, k: nat)
    requires
        k > s.len(),
    ensures
        dec_mr_items(s, k) is None,
    decreases k,
{
    if dec_ints(s) is Some {
        let r = dec_ints(s).unwrap().1;
        lemma_dec_ints_shrinks(s);
        lemma_dec_mr_items_needs_text(r, (k - 1) as nat);
    }
}

proof fn lemma_dec_mr_items_rest(s: Seq<char>, k: nat)
    ensures
        dec_mr_items(s, k) is Some ==> dec_mr_items(s, k).unwrap().1.len() <= s.len(),
    decreases k,
{
    if k > 0 && dec_ints(s) is Some {
        let r = dec_ints(s).unwrap().1;
        lemma_dec_ints_shrinks(s);
        lemma_dec_mr_items_rest(r, (k - 1) as nat);
    }
}

/// A successful match-result parse always consumes at least one
/// character.
proof fn lemma_dec_mr_shrinks(s: Seq<char>)
    requires
        dec_mr(s) is Some,
    ensures
        dec_mr(s).unwrap().1.len() < s.len(),
{
    lemma_dec_rec_rest(s, 0);
    let r = dec_num(s).unwrap().1;
    let n = dec_num(s).unwrap().0;
    lemma_dec_mr_items_rest(r, n);
}

pub fn encode_mr(out: &mut String, v: &MatchResult)
    ensures
        final(out)@ == old(out)@ + enc_mr(v.deep_view()),
{
    let n = v.len();
    encode_num(out, n as u64);
    let mut i: usize = 0;
    while i < n
        invariant
            i <= n,
            n == v@.len(),
            out@ == old(out)@ + enc_num(v.deep_view().len()) + enc_mr_items(v.deep_view(), i as int),
        decreases n - i,
    {
        encode_ints(out, &v[i]);
        proof {
            assert(v.deep_view()[i as int] == v@[i as int]@);
        }
        i += 1;
    }
    proof {
        assert(out@ =~= old(out)@ + enc_mr(v.deep_view()));
    }
}

pub fn decode_mr(s: &str, pos: usize) -> (r: Option<(MatchResult, usize)>)
    requires
        pos <= s@.len(),
    ensures
        match r {
            Some(vp) => pos <= vp.1 <= s@.len() && dec_mr(s@.subrange(pos as int, s@.len() as int))
                == Some((vp.0.deep_view(), s@.subrange(vp.1 as int, s@.len() as int))),
            None => dec_mr(s@.subrange(pos as int, s@.len() as int)) is None,
        },
{
    let ghost whole = s@.subrange(pos as int, s@.len() as int);
    let len = s.unicode_len();
    match decode_num_u64(s, pos) {
        Some((count, p0)) => {
            let ghost after_count = s@.subrange(p0 as int, s@.len() as int);
            if count > (len as u64) {
                proof {
                    lemma_dec_mr_items_needs_text(after_count, count as nat);
                }
                return None;
            }
            let count_us = count as usize;
            let mut acc: MatchResult = Vec::new();
            let mut p: usize = p0;
            let mut k: usize = 0;
            while k < count_us
                invariant
                    k <= count_us,
                    pos <= p0 <= s@.len(),
                    pos <= p <= s@.len(),
                    len == s@.len(),
                    whole == s@.subrange(pos as int, s@.len() as int),
                    after_count == s@.subrange(p0 as int, s@.len() as int),
                    dec_num(whole) == Some((count_us as nat, after_count)),
                    acc@.len() == k,
                    dec_mr_items(after_count, count_us as nat) == (match dec_mr_items(
                        s@.subrange(p as int, s@.len() as int),
                        (count_us - k) as nat,
                    ) {
                        Some(p2) => Some((acc.deep_view() + p2.0, p2.1)),
                        None => None,
                    }),
                decreases count_us - k,
            {
                match decode_ints(s, p) {
                    Some((x, p2)) => {
                        let ghost old_acc = acc.deep_view();
                        let ghost xv = x@;
                        proof {
                            assert(x.deep_view() =~= x@);
                        }
                        acc.push(x);
                        proof {
                            assert(acc.deep_view() =~= old_acc + seq![xv]);
                            assert forall|q: (Seq<Seq<i32>>, Seq<char>)|
                                dec_mr_items(
                                    s@.subrange(p2 as int, s@.len() as int),
                                    (count_us - k - 1) as nat,
                                ) == Some(q) implies (old_acc + (seq![xv] + q.0)) =~= (
                            acc.deep_view() + q.0) by {}
                        }
                        p = p2;
                        k += 1;
                    },
                    None => {
                        return None;
                    },
                }
            }
            proof {
                let cur = s@.subrange(p as int, s@.len() as int);
                assert(dec_mr_items(cur, 0) == Some((Seq::<Seq<i32>>::empty(), cur)));
                assert(acc.deep_view() + Seq::<Seq<i32>>::empty() =~= acc.deep_view());
            }
            Some((acc, p))
        },
        None => {
            proof {
                if dec_num(whole) is Some {
                    let n = dec_num(whole).unwrap().0;
                    let r = dec_num(whole).unwrap().1;
                    assert(n > u64::MAX);
                    lemma_dec_rec_rest(whole, 0);
                    lemma_dec_mr_items_needs_text(r, n);
                }
            }
            None
        },
    }
}

/// The observable content of a substructure result entry.
pub type SSResultRepr = (Seq<Seq<i32>>, Seq<char>);

/// The canonical encoding of the result list: the delimited count, then
/// each match result and identifier.
pub open spec fn enc_ss_items(v: Seq<SSResultRepr>, n: int) -> Seq<char>
    decreases n,
{
    if n <= 0 {
        Seq::empty()
    } else {
        enc_ss_items(v, n - 1) + enc_mr(v[n - 1].0) + enc_str(v[n - 1].1)
    }
}

pub open spec fn enc_ss_results(v: Seq<SSResultRepr>) -> Seq<char> {
    enc_num(v.len()) + enc_ss_items(v, v.len() as int)
}

pub open spec fn dec_ss_items(s: Seq<char>, k: nat) -> Option<(Seq<SSResultRepr>, Seq<char>)>
    decreases k,
{
    if k == 0 {
        Some((Seq::empty(), s))
    } else {
        match dec_mr(s) {
            Some((m, r)) => match dec_str(r) {
                Some((id, r2)) => match dec_ss_items(r2, (k - 1) as nat) {
                    Some((xs, r3)) => Some((seq![(m, id)] + xs, r3)),
                    None => None,
                },
                None => None,
            },
            None => None,
        }
    }
}

pub open spec fn dec_ss_results(s: Seq<char>) -> Option<(Seq<SSResultRepr>, Seq<char>)> {
    match dec_num(s) {
        Some((n, r)) => dec_ss_items(r, n),
        None => None,
    }
}

proof fn lemma_enc_ss_items_head(v: Seq<SSResultRepr>, n: int)
    requires
        1 <= n <= v.len(),
    ensures
        enc_ss_items(v, n) =~= enc_mr(v[0].0) + enc_str(v[0].1) + enc_ss_items(
            v.subrange(1, v.len() as int),
            n - 1,
        ),
    decreases n,
{
    let v1 = v.subrange(1, v.len() as int);
    if n == 1 {
        assert(enc_ss_items(v, 0) == Seq::<char>::empty());
        assert(enc_ss_items(v1, 0) == Seq::<char>::empty());
    } else {
        lemma_enc_ss_items_head(v, n - 1);
        assert(v1[n - 2] == v[n - 1]);
    }
}

proof fn lemma_dec_enc_ss_items(v: Seq<SSResultRepr>, n: int, t: Seq<char>)
    requires
        0 <= n <= v.len(),
    ensures
        dec_ss_items(enc_ss_items(v, n) + t, n as nat) == Some((v.subrange(0, n), t)),
    decreases n,
{
    if n == 0 {
        assert(enc_ss_items(v, 0) + t =~= t);
        assert(v.subrange(0, 0) =~= Seq::<SSResultRepr>::empty());
    } else {
        let v1 = v.subrange(1, v.len() as int);
        lemma_enc_ss_items_head(v, n);
        let t1 = enc_str(v[0].1) + (enc_ss_items(v1, n - 1) + t);
        assert(enc_ss_items(v, n) + t =~= enc_mr(v[0].0) + t1);
        lemma_dec_enc_mr(v[0].0, t1);
        lemma_dec_enc_str(v[0].1, enc_ss_items(v1, n - 1) + t);
        lemma_dec_enc_ss_items(v1, n - 1, t);
        assert(seq![(v[0].0, v[0].1)] + v1.subrange(0, n - 1) =~= v.subrange(0, n));
    }
}

pub proof fn lemma_dec_enc_ss_results(v: Seq<SSResultRepr>, t: Seq<char>)
    ensures
        dec_ss_results(enc_ss_results(v) + t) == Some((v, t)),
{
    let items = enc_ss_items(v, v.len() as int);
    assert(enc_ss_results(v) + t =~= enc_num(v.len()) + (items + t));
    lemma_dec_enc_num(v.len(), items + t);
    lemma_dec_enc_ss_items(v, v.len() as int, t);
    assert(v.subrange(0, v.len() as int) =~= v);
}

proof fn lemma_dec_ss_items_needs_text(s: Seq<char>, k: nat)
    requires
        k > s.len(),
    ensures
        dec_ss_items(s, k) is None,
    decreases k,
{
    if dec_mr(s) is Some {
        let r = dec_mr(s).unwrap().1;
        lemma_dec_mr_shrinks(s);
        if dec_str(r) is Some {
            let r2 = dec_str(r).unwrap().1;
            lemma_dec_rec_rest(r, 0);
            lemma_dec_ss_items_needs_text(r2, (k - 1) as nat);
        }
    }
}

/// The pair list's observable content.
pub open spec fn ss_results_repr(v: Seq<(MatchResult, String)>) -> Seq<SSResultRepr> {
    Seq::new(v.len(), |i: int| (v[i].0.deep_view(), v[i].1@))
}

pub fn encode_ss_results(out: &mut String, v: &Vec<(MatchResult, String)>)
    ensures
        final(out)@ == old(out)@ + enc_ss_results(ss_results_repr(v@)),
{
    let n = v.len();
    encode_num(out, n as u64);
    let mut i: usize = 0;
    while i < n
        invariant
            i <= n,
            n == v@.len(),
            out@ == old(out)@ + enc_num(ss_results_repr(v@).len()) + enc_ss_items(
                ss_results_repr(v@),
                i as int,
            ),
        decreases n - i,
    {
        encode_mr(out, &v[i].0);
        encode_str(out, v[i].1.as_str());
        proof {
            assert(ss_results_repr(v@)[i as int] == (v@[i as int].0.deep_view(), v@[i as int].1@));
        }
        i += 1;
    }
    proof {
        assert(out@ =~= old(out)@ + enc_ss_results(ss_results_repr(v@)));
    }
}

pub fn decode_ss_results(s: &str, pos: usize) -> (r: Option<(Vec<(MatchResult, String)>, usize)>)
    requires
        pos <= s@.len(),
    ensures
        match r {
            Some(vp) => pos <= vp.1 <= s@.len() && dec_ss_results(
                s@.subrange(pos as int, s@.len() as int),
            ) == Some((ss_results_repr(vp.0@), s@.subrange(vp.1 as int, s@.len() as int))),
            None => dec_ss_results(s@.subrange(pos as int, s@.len() as int)) is None,
        },
{
    let ghost whole = s@.subrange(pos as int, s@.len() as int);
    let len = s.unicode_len();
    match decode_num_u64(s, pos) {
        Some((count, p0)) => {
            let ghost after_count = s@.subrange(p0 as int, s@.len() as int);
            if count > (len as u64) {
                proof {
                    lemma_dec_ss_items_needs_text(after_count, count as nat);
                }
                return None;
            }
            let count_us = count as usize;
            let mut acc: Vec<(MatchResult, String)> = Vec::new();
            let mut p: usize = p0;
            let mut k: usize = 0;
            while k < count_us
                invariant
                    k <= count_us,
                    pos <= p0 <= s@.len(),
                    pos <= p <= s@.len(),
                    len == s@.len(),
                    whole == s@.subrange(pos as int, s@.len() as int),
                    after_count == s@.subrange(p0 as int, s@.len() as int),
                    dec_num(whole) == Some((count_us as nat, after_count)),
                    acc@.len() == k,
                    dec_ss_items(after_count, count_us as nat) == (match dec_ss_items(
                        s@.subrange(p as int, s@.len() as int),
                        (count_us - k) as nat,
                    ) {
                        Some(p2) => Some((ss_results_repr(acc@) + p2.0, p2.1)),
                        None => None,
                    }),
                decreases count_us - k,
            {
                match decode_mr(s, p) {
                    Some((m, p1)) => {
                        match decode_str(s, p1) {
                            Some((id, p2)) => {
                                let ghost old_repr = ss_results_repr(acc@);
                                let ghost mv = m.deep_view();
                                acc.push((m, id));
                                proof {
                                    assert(ss_results_repr(acc@) =~= old_repr + seq![
                                        (mv, acc@[k as int].1@),
                                    ]);
                                    assert forall|q: (Seq<SSResultRepr>, Seq<char>)|
                                        dec_ss_items(
                                            s@.subrange(p2 as int, s@.len() as int),
                                            (count_us - k - 1) as nat,
                                        ) == Some(q) implies (old_repr + (seq![
                                        (mv, acc@[k as int].1@),
                                    ] + q.0)) =~= (ss_results_repr(acc@) + q.0) by {}
                                }
                                p = p2;
                                k += 1;
                            },
                            None => {
                                return None;
                            },
                        }
                    },
                    None => {
                        return None;
                    },
                }
            }
            proof {
                let cur = s@.subrange(p as int, s@.len() as int);
                assert(dec_ss_items(cur, 0) == Some((Seq::<SSResultRepr>::empty(), cur)));
                assert(ss_results_repr(acc@) + Seq::<SSResultRepr>::empty() =~= ss_results_repr(acc@));
            }
            Some((acc, p))
        },
        None => {
            proof {
                if dec_num(whole) is Some {
                    let n = dec_num(whole).unwrap().0;
                    let r = dec_num(whole).unwrap().1;
                    assert(n > u64::MAX);
                    lemma_dec_rec_rest(whole, 0);
                    lemma_dec_ss_items_needs_text(r, n);
                }
            }
            None
        },
    }
}

/// The canonical encoding of a substructure input: the pattern text.
pub open spec fn enc_ss_input(x: Seq<char>) -> Seq<char> {
    enc_str(x)
}

pub open spec fn dec_ss_input(s: Seq<char>) -> Option<(Seq<char>, Seq<char>)> {
    dec_str(s)
}

impl Serialization for Input {
    type Repr = Seq<char>;

    open spec fn repr(&self) -> Seq<char> {
        self.smarts@
    }

    open spec fn serial(&self) -> Seq<char> {
        enc_ss_input(self.smarts@)
    }

    open spec fn deserial(s: Seq<char>) -> Option<Seq<char>> {
        match dec_ss_input(s) {
            Some((v, r)) => if r.len() == 0 {
                Some(v)
            } else {
                None
            },
            None => None,
        }
    }

    fn ser_to(&self) -> (r: crate::traits::SerializedFormat) {
        let mut out = String::new();
        encode_str(&mut out, self.smarts.as_str());
        proof {
            assert(out@ =~= self.serial());
        }
        out
    }

    fn ser_from(content: &crate::traits::SerializedFormat) -> (r: Self) {
        let len = content.as_str().unicode_len();
        proof {
            assert(content@.subrange(0, content@.len() as int) =~= content@);
        }
        match decode_str(content.as_str(), 0) {
            Some((v, p)) => {
                if p == len {
                    proof {
                        assert(content@.subrange(p as int, content@.len() as int).len() == 0);
                    }
                    Input { smarts: v }
                } else {
                    proof {
                        assert(content@.subrange(p as int, content@.len() as int).len() != 0);
                        assert(false);
                    }
                    unreached()
                }
            },
            None => {
                proof {
                    assert(false);
                }
                unreached()
            },
        }
    }

    proof fn lemma_round_trip(&self) {
        lemma_dec_enc_str(self.smarts@, Seq::empty());
        assert(self.serial() + Seq::empty() =~= self.serial());
    }
}

impl crate::traits::TraitInput for Input {
    open spec fn is_default(&self) -> bool {
        self.smarts@ == "c1ccccc1N=O"@
    }

    fn default() -> (r: Self) {
        Input { smarts: String::from_str("c1ccccc1N=O") }
    }
}

impl Serialization for Output {
    type Repr = Seq<SSResultRepr>;

    open spec fn repr(&self) -> Seq<SSResultRepr> {
        ss_results_repr(self.results@)
    }

    open spec fn serial(&self) -> Seq<char> {
        enc_ss_results(ss_results_repr(self.results@))
    }

    open spec fn deserial(s: Seq<char>) -> Option<Seq<SSResultRepr>> {
        match dec_ss_results(s) {
            Some((v, r)) => if r.len() == 0 {
                Some(v)
            } else {
                None
            },
            None => None,
        }
    }

    fn ser_to(&self) -> (r: crate::traits::SerializedFormat) {
        let mut out = String::new();
        encode_ss_results(&mut out, &self.results);
        proof {
            assert(out@ =~= self.serial());
        }
        out
    }

    fn ser_from(content: &crate::traits::SerializedFormat) -> (r: Self) {
        let len = content.as_str().unicode_len();
        proof {
            assert(content@.subrange(0, content@.len() as int) =~= content@);
        }
        match decode_ss_results(content.as_str(), 0) {
            Some((v, p)) => {
                if p == len {
                    proof {
                        assert(content@.subrange(p as int, content@.len() as int).len() == 0);
                    }
                    Output { results: v }
                } else {
                    proof {
                        assert(content@.subrange(p as int, content@.len() as int).len() != 0);
                        assert(false);
                    }
                    unreached()
                }
            },
            None => {
                proof {
                    assert(false);
                }
                unreached()
            },
        }
    }

    proof fn lemma_round_trip(&self) {
        lemma_dec_enc_ss_results(ss_results_repr(self.results@), Seq::empty());
        assert(self.serial() + Seq::empty() =~= self.serial());
    }
}

impl crate::traits::TraitOutput for Output {
    open spec fn is_blank(&self) -> bool {
        self.results@.len() == 0
    }

    fn blank() -> (r: Self) {
        Output { results: Vec::new() }
    }

    fn clear(&mut self) {
        self.results.clear();
    }

    fn append(&mut self, other: &mut Self) {
        self.results.append(&mut other.results);
    }

    fn len(&self) -> usize {
        self.results.len()
    }
}

/// The observable content of a substructure report.
pub type SSReportRepr = (Seq<char>, crate::kinds::ComputingUnit, Seq<char>, Seq<SSResultRepr>);

/// The canonical encoding of a substructure report: job identifier,
/// computing-unit kind, input and output, in that order.
pub open spec fn enc_ss_report(x: SSReportRepr) -> Seq<char> {
    enc_str(x.0) + enc_cu(x.1) + enc_ss_input(x.2) + enc_ss_results(x.3)
}

pub open spec fn dec_ss_report(s: Seq<char>) -> Option<(SSReportRepr, Seq<char>)> {
    match dec_str(s) {
        Some((jid, r)) => match dec_cu(r) {
            Some((cuk, r2)) => match dec_ss_input(r2) {
                Some((inp, r3)) => match dec_ss_results(r3) {
                    Some((outp, r4)) => Some(((jid, cuk, inp, outp), r4)),
                    None => None,
                },
                None => None,
            },
            None => None,
        },
        None => None,
    }
}

pub proof fn lemma_dec_enc_ss_report(x: SSReportRepr, t: Seq<char>)
    ensures
        dec_ss_report(enc_ss_report(x) + t) == Some((x, t)),
{
    let t3 = enc_ss_results(x.3) + t;
    let t2 = enc_ss_input(x.2) + t3;
    let t1 = enc_cu(x.1) + t2;
    assert(enc_ss_report(x) + t =~= enc_str(x.0) + t1);
    lemma_dec_enc_str(x.0, t1);
    assert(t1 =~= enc_cu(x.1) + t2);
    lemma_dec_enc_cu(x.1, t2);
    lemma_dec_enc_str(x.2, t3);
    lemma_dec_enc_ss_results(x.3, t);
}

/// The concatenation, in order, of what the first `n` serialized outputs
/// decode to.
pub open spec fn spec_merged_ss_outputs(sers: Seq<String>, n: int) -> Seq<SSResultRepr>
    decreases n,
{
    if n <= 0 {
        Seq::empty()
    } else {
        spec_merged_ss_outputs(sers, n - 1) + (match <Output as Serialization>::deserial(
            sers[n - 1]@,
        ) {
            Some(v) => v,
            None => Seq::empty(),
        })
    }
}

impl Report {
    pub open spec fn spec_repr(self) -> SSReportRepr {
        (self.job_id@, self.cuk, self.input.smarts@, ss_results_repr(self.output.results@))
    }

    /// Assemble the report for one job from the echoed serialized input
    /// and the ordered serialized outputs, merging the outputs in order.
    pub fn new(
        t: (
            crate::job::ID,
            crate::kinds::ComputingUnit,
            &crate::traits::SerializedFormat,
            &Vec<crate::traits::SerializedFormat>,
        ),
    ) -> (r: Report)
        requires
            <Input as Serialization>::deserial(t.2@) is Some,
            forall|i: int| 0 <= i < t.3@.len() ==> <Output as Serialization>::deserial(
                (#[trigger] t.3@[i])@,
            ) is Some,
        ensures
            r.job_id == t.0,
            r.cuk == t.1,
            Some(r.input.smarts@) == <Input as Serialization>::deserial(t.2@),
            ss_results_repr(r.output.results@) == spec_merged_ss_outputs(t.3@, t.3@.len() as int),
    {
        let (job_id, cuk, input_ser, output_sers) = t;
        let input = Input::ser_from(input_ser);
        let mut results: Vec<(MatchResult, crate::data::types::EntryID)> = Vec::new();
        let n = output_sers.len();
        let mut i: usize = 0;
        while i < n
            invariant
                i <= n,
                n == output_sers@.len(),
                forall|j: int| 0 <= j < n ==> <Output as Serialization>::deserial(
                    (#[trigger] output_sers@[j])@,
                ) is Some,
                ss_results_repr(results@) == spec_merged_ss_outputs(output_sers@, i as int),
            decreases n - i,
        {
            let mut part = Output::ser_from(&output_sers[i]);
            let ghost pre = ss_results_repr(results@);
            let ghost part_repr = ss_results_repr(part.results@);
            let ghost before = results@;
            let ghost part_before = part.results@;
            results.append(&mut part.results);
            proof {
                let lhs = ss_results_repr(results@);
                let rhs = pre + part_repr;
                assert(results@ == before + part_before);
                assert(lhs.len() == rhs.len());
                assert forall|q: int| 0 <= q < lhs.len() implies lhs[q] == rhs[q] by {
                    if q < before.len() {
                        assert(results@[q] == before[q]);
                    } else {
                        assert(results@[q] == part_before[q - before.len()]);
                    }
                }
                assert(lhs =~= rhs);
            }
            i += 1;
        }
        Report { job_id, cuk, input, output: Output { results } }
    }
}


impl Report {
    /// Merge another report's output into this one, keeping this
    /// report's identity; the outputs are concatenated in order.
    pub fn extend(&mut self, other: Report)
        ensures
            final(self).job_id == old(self).job_id,
            final(self).cuk == old(self).cuk,
            final(self).input == old(self).input,
            final(self).output.results@ == old(self).output.results@ + other.output.results@,
    {
        let mut tail = other.output.results;
        self.output.results.append(&mut tail);
    }
}

/// Parse a whole report at character position `pos`.
pub fn decode_report(s: &str, pos: usize) -> (r: Option<(Report, usize)>)
    requires
        pos <= s@.len(),
    ensures
        match r {
            Some(vp) => pos <= vp.1 <= s@.len() && dec_ss_report(
                s@.subrange(pos as int, s@.len() as int),
            ) == Some((vp.0.spec_repr(), s@.subrange(vp.1 as int, s@.len() as int))),
            None => dec_ss_report(s@.subrange(pos as int, s@.len() as int)) is None,
        },
{
    match decode_str(s, pos) {
        Some((jid, p1)) => match decode_cu(s, p1) {
            Some((cuk, p2)) => match decode_str(s, p2) {
                Some((smarts, p3)) => match decode_ss_results(s, p3) {
                    Some((outp, p4)) => Some(
                        (
                            Report {
                                job_id: jid,
                                cuk,
                                input: Input { smarts },
                                output: Output { results: outp },
                            },
                            p4,
                        ),
                    ),
                    None => None,
                },
                None => None,
            },
            None => None,
        },
        None => None,
    }
}

impl Serialization for Report {
    type Repr = SSReportRepr;

    open spec fn repr(&self) -> SSReportRepr {
        self.spec_repr()
    }

    open spec fn serial(&self) -> Seq<char> {
        enc_ss_report(self.spec_repr())
    }

    open spec fn deserial(s: Seq<char>) -> Option<SSReportRepr> {
        match dec_ss_report(s) {
            Some((v, r)) => if r.len() == 0 {
                Some(v)
            } else {
                None
            },
            None => None,
        }
    }

    fn ser_to(&self) -> (r: crate::traits::SerializedFormat) {
        let mut out = String::new();
        encode_str(&mut out, self.job_id.as_str());
        encode_cu(&mut out, &self.cuk);
        encode_str(&mut out, self.input.smarts.as_str());
        encode_ss_results(&mut out, &self.output.results);
        proof {
            assert(out@ =~= self.serial());
        }
        out
    }

    fn ser_from(content: &crate::traits::SerializedFormat) -> (r: Self) {
        let len = content.as_str().unicode_len();
        proof {
            assert(content@.subrange(0, content@.len() as int) =~= content@);
        }
        match decode_report(content.as_str(), 0) {
            Some((report, p)) => {
                if p == len {
                    proof {
                        assert(content@.subrange(p as int, content@.len() as int).len() == 0);
                    }
                    report
                } else {
                    proof {
                        assert(content@.subrange(p as int, content@.len() as int).len() != 0);
                        assert(false);
                    }
                    unreached()
                }
            },
            None => {
                proof {
                    assert(false);
                }
                unreached()
            },
        }
    }

    proof fn lemma_round_trip(&self) {
        lemma_dec_enc_ss_report(self.spec_repr(), Seq::empty());
        assert(self.serial() + Seq::empty() =~= self.serial());
    }
}

/// One substructure computation held together: the operator, its current
/// input, the prepared data, and the accumulated output.
#[derive(Debug, Clone, PartialEq)]
pub struct ComputingUnit {
    pub op: Operator,
    pub input: Input,
    pub data: Data,
    pub output: Output,
}

impl ComputingUnit {
    /// A fresh unit with the default input, no data and no output.
    pub fn new() -> (r: Self)
        ensures
            r.data.wf(),
            r.input.is_default(),
            r.data.ids@.len() == 0 && r.data.smiles@.len() == 0,
            r.output.results@.len() == 0,
    {
        ComputingUnit {
            op: Operator {  },
            input: TraitInput::default(),
            data: Data { dsk: crate::kinds::Dataset::Empty, ids: Vec::new(), smiles: Vec::new() },
            output: Output { results: Vec::new() },
        }
    }

    /// Take the job's serialized input as this unit's input.
    pub fn set_input(&mut self, input_ser: &crate::traits::SerializedFormat)
        requires
            <Input as Serialization>::deserial(input_ser@) is Some,
        ensures
            final(self).op == old(self).op,
            final(self).data == old(self).data,
            final(self).output == old(self).output,
            Some(final(self).input.smarts@) == <Input as Serialization>::deserial(input_ser@),
    {
        self.input = Input::ser_from(input_ser);
    }

    /// Prepare this unit's data from a whole in-memory document.
    pub fn set_data(&mut self, dsk: &crate::kinds::Dataset, doc: &crate::data::DocSMILES)
        requires
            doc.wf(),
        ensures
            final(self).op == old(self).op,
            final(self).input == old(self).input,
            final(self).output == old(self).output,
            final(self).data.wf(),
            final(self).data.dsk == *dsk,
            final(self).data.ids@ == doc.ids@,
            final(self).data.smiles@ == doc.smiles@,
    {
        self.data = Data::from((dsk, doc));
    }

    /// Run the match on the prepared data and append what it retains to
    /// the accumulated output.
    pub fn compute(&mut self)
        requires
            old(self).data.wf(),
        ensures
            final(self).op == old(self).op,
            final(self).input == old(self).input,
            final(self).data == old(self).data,
            final(self).output.results.deep_view() == old(self).output.results.deep_view()
                + spec_compute(
                old(self).data.smiles@,
                old(self).data.ids@,
                old(self).input.smarts@,
                old(self).data.smiles@.len() as int,
            ),
    {
        let ghost pre = self.output.results.deep_view();
        let mut fresh = self.op.compute(&self.input, &self.data, &(0, 1));
        let ghost fresh_view = fresh.results.deep_view();
        let ghost before = self.output.results@;
        let ghost part_before = fresh.results@;
        self.output.results.append(&mut fresh.results);
        proof {
            let lhs = self.output.results.deep_view();
            let rhs = pre + fresh_view;
            assert(self.output.results@ == before + part_before);
            assert(lhs.len() == rhs.len());
            assert forall|q: int| 0 <= q < lhs.len() implies lhs[q] == rhs[q] by {
                if q < before.len() {
                    assert(self.output.results@[q] == before[q]);
                } else {
                    assert(self.output.results@[q] == part_before[q - before.len()]);
                }
            }
            assert(lhs =~= rhs);
        }
    }

    pub fn get_output_len(&self) -> (r: usize)
        ensures
            r == self.output.results@.len(),
    {
        self.output.results.len()
    }
}

} // verus!
