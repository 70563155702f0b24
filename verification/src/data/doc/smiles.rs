//! The standardized document of entry identifiers and SMILES strings,
//! converted from the raw dataset sources.

use vstd::prelude::*;
use crate::utils::{lemma_str_le_total, lemma_str_le_trans, str_eq, str_le, str_seq_le};

verus! {

#[derive(Debug, Clone, PartialEq)]
pub struct DocSMILES {
    pub ids: Vec<crate::data::types::EntryID>,
    pub smiles: Vec<crate::app::chem::types::SMILES>,
}

/// The (id, smiles) pairs of two parallel vectors, in order.
pub open spec fn pairs_of(ids: Seq<String>, smiles: Seq<String>) -> Seq<(String, String)> {
    Seq::new(ids.len(), |i: int| (ids[i], smiles[i]))
}

/// The first position among the leading `n` holding this identifier.
pub open spec fn spec_find_id(ids: Seq<String>, id: Seq<char>, n: int) -> Option<int>
    decreases n,
{
    if n <= 0 {
        None
    } else {
        match spec_find_id(ids, id, n - 1) {
            Some(i) => Some(i),
            None => if ids[n - 1]@ == id {
                Some(n - 1)
            } else {
                None
            },
        }
    }
}

impl DocSMILES {
    /// One SMILES string per identifier.
    pub open spec fn wf(self) -> bool {
        self.ids@.len() == self.smiles@.len()
    }

    pub fn empty() -> (r: Self)
        ensures
            r.wf(),
            r.ids@.len() == 0,
            r.smiles@.len() == 0,
    {
        DocSMILES { ids: Vec::new(), smiles: Vec::new() }
    }

    /// The document's identifiers come out in ascending order.
    pub open spec fn sorted(self) -> bool {
        forall|i: int, j: int|
            0 <= i < j < self.ids@.len() ==> str_seq_le(
                (#[trigger] self.ids@[i])@,
                (#[trigger] self.ids@[j])@,
            )
    }

    /// Sorts the entries by identifier: the ids come out ascending, and
    /// the (id, smiles) pairs of the result are exactly a permutation of
    /// the pairs handed in — one permutation applied to both vectors.
    pub fn new(
        ids_in: Vec<crate::data::types::EntryID>,
        smiles_in: Vec<crate::app::chem::types::SMILES>,
    ) -> (r: Self)
        requires
            ids_in@.len() == smiles_in@.len(),
        ensures
            r.wf(),
            r.ids@.len() == ids_in@.len(),
            r.sorted(),
            pairs_of(r.ids@, r.smiles@).to_multiset() == pairs_of(ids_in@, smiles_in@)
                .to_multiset(),
    {
        let ghost pairs0 = pairs_of(ids_in@, smiles_in@);
        let n = ids_in.len();
        let mut rest: Vec<(String, String)> = Vec::new();
        let mut i: usize = 0;
        while i < n
            invariant
                i <= n,
                n == ids_in@.len() == smiles_in@.len(),
                rest@.len() == i,
                forall|j: int| 0 <= j < i ==> #[trigger] rest@[j] == (ids_in@[j], smiles_in@[j]),
            decreases n - i,
        {
            let entry = (ids_in[i].clone(), smiles_in[i].clone());
            proof {
                assert(cloned::<String>(ids_in@[i as int], entry.0));
                assert(cloned::<String>(smiles_in@[i as int], entry.1));
            }
            rest.push(entry);
            i += 1;
        }
        proof {
            assert(rest@ =~= pairs0);
            broadcast use vstd::seq_lib::group_to_multiset_ensures;
            broadcast use vstd::multiset::group_multiset_axioms;

            let empty_out = Seq::<(String, String)>::empty();
            assert forall|e: (String, String)|
                empty_out.to_multiset().add(rest@.to_multiset()).count(e) == pairs0.to_multiset()
                    .count(e) by {
                assert(!empty_out.contains(e));
            }
            assert(empty_out.to_multiset().add(rest@.to_multiset()) =~= pairs0.to_multiset());
        }
        let mut out: Vec<(String, String)> = Vec::new();
        while rest.len() > 0
            invariant
                out@.to_multiset().add(rest@.to_multiset()) == pairs0.to_multiset(),
                out@.len() + rest@.len() == pairs0.len(),
                forall|i: int, j: int|
                    0 <= i < j < out@.len() ==> str_seq_le(
                        (#[trigger] out@[i]).0@,
                        (#[trigger] out@[j]).0@,
                    ),
                forall|i: int, k: int|
                    0 <= i < out@.len() && 0 <= k < rest@.len() ==> str_seq_le(
                        (#[trigger] out@[i]).0@,
                        (#[trigger] rest@[k]).0@,
                    ),
            decreases rest@.len(),
        {
            let mut m: usize = 0;
            proof {
                lemma_str_le_total(rest@[0].0@, rest@[0].0@);
            }
            let mut j: usize = 1;
            while j < rest.len()
                invariant
                    m < j <= rest@.len(),
                    forall|k: int| 0 <= k < j ==> str_seq_le(
                        rest@[m as int].0@,
                        (#[trigger] rest@[k]).0@,
                    ),
                decreases rest@.len() - j,
            {
                if str_le(rest[j].0.as_str(), rest[m].0.as_str()) {
                    proof {
                        assert forall|k: int| 0 <= k < j + 1 implies str_seq_le(
                            rest@[j as int].0@,
                            (#[trigger] rest@[k]).0@,
                        ) by {
                            if k == j {
                                lemma_str_le_total(rest@[j as int].0@, rest@[j as int].0@);
                            } else {
                                lemma_str_le_trans(
                                    rest@[j as int].0@,
                                    rest@[m as int].0@,
                                    rest@[k].0@,
                                );
                            }
                        }
                    }
                    m = j;
                } else {
                    proof {
                        lemma_str_le_total(rest@[m as int].0@, rest@[j as int].0@);
                    }
                }
                j += 1;
            }
            let ghost old_out = out@;
            let ghost old_rest = rest@;
            let item = rest.remove(m);
            out.push(item);
            proof {
                broadcast use vstd::seq_lib::group_to_multiset_ensures;
                broadcast use vstd::multiset::group_multiset_axioms;

                assert(out@[out@.len() - 1] == old_rest[m as int]);
                assert(out@ =~= old_out.push(old_rest[m as int]));
                assert(out@.to_multiset() =~= old_out.to_multiset().insert(old_rest[m as int]));
                assert(rest@.to_multiset() =~= old_rest.to_multiset().remove(old_rest[m as int]));
                assert(old_rest.contains(old_rest[m as int]));
                assert(old_rest.to_multiset().count(old_rest[m as int]) > 0);
                assert(out@.to_multiset().add(rest@.to_multiset()) =~= pairs0.to_multiset());
                assert forall|a: int, b: int|
                    0 <= a < b < out@.len() implies str_seq_le(
                    (#[trigger] out@[a]).0@,
                    (#[trigger] out@[b]).0@,
                ) by {
                    if b < out@.len() - 1 {
                        assert(out@[a] == old_out[a] && out@[b] == old_out[b]);
                    } else {
                        assert(out@[a] == old_out[a]);
                        assert(str_seq_le(old_out[a].0@, old_rest[m as int].0@));
                    }
                }
                assert forall|a: int, k: int|
                    0 <= a < out@.len() && 0 <= k < rest@.len() implies str_seq_le(
                    (#[trigger] out@[a]).0@,
                    (#[trigger] rest@[k]).0@,
                ) by {
                    let k0 = if k < m { k } else { k + 1 };
                    assert(rest@[k] == old_rest[k0]);
                    if a < out@.len() - 1 {
                        assert(out@[a] == old_out[a]);
                    } else {
                        assert(str_seq_le(old_rest[m as int].0@, old_rest[k0].0@));
                    }
                }
            }
        }
        let mut ids: Vec<crate::data::types::EntryID> = Vec::new();
        let mut smiles: Vec<crate::app::chem::types::SMILES> = Vec::new();
        let total = out.len();
        let mut k: usize = 0;
        while k < total
            invariant
                k <= total,
                total == out@.len(),
                ids@.len() == k && smiles@.len() == k,
                forall|j: int| 0 <= j < k ==> (#[trigger] ids@[j]) == out@[j].0,
                forall|j: int| 0 <= j < k ==> (#[trigger] smiles@[j]) == out@[j].1,
            decreases total - k,
        {
            let id = out[k].0.clone();
            let sm = out[k].1.clone();
            proof {
                assert(cloned::<String>(out@[k as int].0, id));
                assert(cloned::<String>(out@[k as int].1, sm));
            }
            ids.push(id);
            smiles.push(sm);
            k += 1;
        }
        proof {
            assert(pairs_of(ids@, smiles@) =~= out@);
            broadcast use vstd::seq_lib::group_to_multiset_ensures;
            broadcast use vstd::multiset::group_multiset_axioms;

            assert forall|e: (String, String)|
                out@.to_multiset().count(e) == pairs0.to_multiset().count(e) by {
                assert(!rest@.contains(e));
                assert(rest@.to_multiset().count(e) == 0);
            }
            assert(out@.to_multiset() =~= pairs0.to_multiset());
            assert(pairs_of(ids@, smiles@).to_multiset() == out@.to_multiset());
        }
        DocSMILES { ids, smiles }
    }

    /// The SMILES string filed under `id`, looked up at its first
    /// occurrence; `None` exactly when no entry has this identifier.
    pub fn get_smiles(&self, id: &crate::data::types::EntryID) -> (r: Option<
        &crate::app::chem::types::SMILES,
    >)
        requires
            self.wf(),
        ensures
            match spec_find_id(self.ids@, id@, self.ids@.len() as int) {
                Some(i) => r is Some && *r.unwrap() == self.smiles@[i],
                None => r is None,
            },
    {
        let n = self.ids.len();
        let mut i: usize = 0;
        while i < n
            invariant
                i <= n,
                self.wf(),
                n == self.ids@.len(),
                spec_find_id(self.ids@, id@, i as int) is None,
            decreases n - i,
        {
            if str_eq(self.ids[i].as_str(), id.as_str()) {
                proof {
                    lemma_find_id_extend(self.ids@, id@, i as int, n as int);
                }
                return Some(&self.smiles[i]);
            }
            i += 1;
        }
        None
    }

    pub fn extract_ids(&self, range: &std::ops::Range<usize>) -> (r: Vec<
        crate::data::types::EntryID,
    >)
        requires
            range.start <= range.end <= self.ids@.len(),
        ensures
            r@ == self.ids@.subrange(range.start as int, range.end as int),
    {
        let mut out: Vec<crate::data::types::EntryID> = Vec::new();
        let mut i: usize = range.start;
        while i < range.end
            invariant
                range.start <= i <= range.end <= self.ids@.len(),
                out@ =~= self.ids@.subrange(range.start as int, i as int),
            decreases range.end - i,
        {
            out.push(self.ids[i].clone());
            proof {
                assert(out@ =~= self.ids@.subrange(range.start as int, i + 1));
            }
            i += 1;
        }
        out
    }

    pub fn extract_smiles_vec(&self, range: &std::ops::Range<usize>) -> (r: Vec<
        crate::app::chem::types::SMILES,
    >)
        requires
            range.start <= range.end <= self.smiles@.len(),
        ensures
            r@ == self.smiles@.subrange(range.start as int, range.end as int),
    {
        let mut out: Vec<crate::app::chem::types::SMILES> = Vec::new();
        let mut i: usize = range.start;
        while i < range.end
            invariant
                range.start <= i <= range.end <= self.smiles@.len(),
                out@ =~= self.smiles@.subrange(range.start as int, i as int),
            decreases range.end - i,
        {
            out.push(self.smiles[i].clone());
            proof {
                assert(out@ =~= self.smiles@.subrange(range.start as int, i + 1));
            }
            i += 1;
        }
        out
    }

    /// The sub-document over one range of entries; a document's entries
    /// are already sorted by identifier, so the slice is taken as it
    /// stands and stays sorted.
    pub fn extract(&self, range: &std::ops::Range<usize>) -> (r: Self)
        requires
            self.wf(),
            range.start <= range.end <= self.ids@.len(),
        ensures
            r.wf(),
            r.ids@ == self.ids@.subrange(range.start as int, range.end as int),
            r.smiles@ == self.smiles@.subrange(range.start as int, range.end as int),
            self.sorted() ==> r.sorted(),
    {
        let r = DocSMILES { ids: self.extract_ids(range), smiles: self.extract_smiles_vec(range) };
        proof {
            if self.sorted() {
                assert forall|i: int, j: int|
                    0 <= i < j < r.ids@.len() implies str_seq_le(
                    (#[trigger] r.ids@[i])@,
                    (#[trigger] r.ids@[j])@,
                ) by {
                    assert(r.ids@[i] == self.ids@[range.start + i]);
                    assert(r.ids@[j] == self.ids@[range.start + j]);
                }
            }
        }
        r
    }

    pub fn get_smiles_vec(&self) -> (r: &Vec<crate::app::chem::types::SMILES>)
        ensures
            r == self.smiles,
    {
        &self.smiles
    }

    pub fn get_ids(&self) -> (r: &Vec<crate::data::types::EntryID>)
        ensures
            r == self.ids,
    {
        &self.ids
    }

    pub fn len(&self) -> (r: usize)
        ensures
            r == self.ids@.len(),
    {
        self.ids.len()
    }
}

proof fn lemma_find_id_extend(ids: Seq<String>, id: Seq<char>, i: int, n: int)
    requires
        0 <= i < n <= ids.len(),
        spec_find_id(ids, id, i) is None,
        ids[i]@ == id,
    ensures
        spec_find_id(ids, id, n) == Some(i),
    decreases n,
{
    if n == i + 1 {
    } else {
        lemma_find_id_extend(ids, id, i, n - 1);
    }
}

impl crate::data::Empty for DocSMILES {
    fn empty() -> Self {
        DocSMILES::new(Vec::new(), Vec::new())
    }
}

impl crate::data::Dummy for DocSMILES {
    fn dummy() -> Self {
        let mut ids: Vec<String> = Vec::new();
        ids.push(String::from_str("label_1"));
        ids.push(String::from_str("label_3"));
        ids.push(String::from_str("label_2"));
        ids.push(String::from_str("label_4"));
        let mut smiles: Vec<String> = Vec::new();
        smiles.push(String::from_str("O=C(C)Oc1ccccc1C(=O)O"));
        smiles.push(String::from_str("N1=C(c3c(Sc2c1cccc2)cccc3)N4CCN(CCOCCO)CC4"));
        smiles.push(String::from_str(
            "O=C(O)C[C@H](O)C[C@H](O)CCn2c(c(c(c2c1ccc(F)cc1)c3ccccc3)C(=O)Nc4ccccc4)C(C)C",
        ));
        smiles.push(String::from_str("CC(=O)Nc1ccc(O)cc1"));
        DocSMILES::new(ids, smiles)
    }
}

} // verus!
