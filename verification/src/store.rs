//! The keyed object store: one setup artifact per program, and for each
//! program its proofs in the order in which they were stored.
//!
//! The store carries the objects and never looks inside them, so it is
//! generic in the type `S` of a setup artifact and the type `P` of a proof.

use crate::error::{proof_not_found, setup_not_found, Error, MissingObject};
use std::collections::BTreeMap;
use vstd::prelude::*;

verus! {

/// The message of the failure that `append_proof` reports when a program
/// already has as many proofs as there are identifiers.
pub open spec fn identifiers_exhausted() -> Seq<char> {
    "proof identifiers exhausted"@
}

/// One append to the proofs of a program: `proof` gets the identifier
/// `proof_id`, the number of proofs `before`, and stands last `after`.
pub open spec fn appended<P>(before: Seq<P>, proof: P, proof_id: nat, after: Seq<P>) -> bool {
    proof_id == before.len() && after == before.push(proof)
}

/// Setup artifacts by program identifier, and proofs by program identifier
/// and proof identifier.
pub struct ObjectStore<S, P> {
    setups: BTreeMap<u32, S>,
    proofs: BTreeMap<u32, Vec<P>>,
}

impl<S, P> ObjectStore<S, P> {
    /// The setup artifacts, by program identifier.
    pub closed spec fn setups(&self) -> Map<u32, S> {
        self.setups@
    }

    /// The proofs of a program. The proof identifier of each is its place in
    /// this sequence, so the identifiers of a program are `0 .. n` without a
    /// gap.
    pub closed spec fn proofs(&self, program_id: u32) -> Seq<P> {
        if self.proofs@.contains_key(program_id) {
            self.proofs@[program_id]@
        } else {
            Seq::empty()
        }
    }

    /// `self` holds the proofs that `other` holds.
    pub open spec fn same_proofs(&self, other: &Self) -> bool {
        forall|program_id: u32| self.proofs(program_id) == other.proofs(program_id)
    }

    /// `self` holds exactly what `other` holds.
    pub open spec fn same_objects(&self, other: &Self) -> bool {
        self.setups() == other.setups() && self.same_proofs(other)
    }

    /// A store that holds nothing.
    pub fn new() -> (store: Self)
        ensures
            store.setups() == Map::<u32, S>::empty(),
            forall|program_id: u32| store.proofs(program_id) == Seq::<P>::empty(),
    {
        ObjectStore { setups: BTreeMap::new(), proofs: BTreeMap::new() }
    }

    /// Makes `artifact` the setup artifact of `program_id`, in place of any
    /// earlier one.
    pub fn store_setup(&mut self, program_id: u32, artifact: S)
        ensures
            final(self).setups() == old(self).setups().insert(program_id, artifact),
            final(self).same_proofs(old(self)),
    {
        self.setups.insert(program_id, artifact);
    }

    /// Adds `proof` to the proofs of `program_id` and returns its identifier:
    /// the number of proofs that the program had before. Fails, and changes
    /// nothing, only when that number is past the largest identifier.
    pub fn append_proof(&mut self, program_id: u32, proof: P) -> (result: Result<u32, Error>)
        ensures
            match result {
                Ok(proof_id) => {
                    &&& appended(
                        old(self).proofs(program_id),
                        proof,
                        proof_id as nat,
                        final(self).proofs(program_id),
                    )
                    &&& forall|other: u32|
                        other != program_id ==> final(self).proofs(other) == old(self).proofs(
                            other,
                        )
                    &&& final(self).setups() == old(self).setups()
                },
                Err(Error::Internal(reason)) => {
                    &&& old(self).proofs(program_id).len() > u32::MAX
                    &&& reason@ == identifiers_exhausted()
                    &&& final(self).same_objects(old(self))
                },
                Err(_) => false,
            },
    {
        let mut list: Vec<P> = match self.proofs.remove(&program_id) {
            Some(list) => list,
            None => Vec::new(),
        };
        let count: usize = list.len();
        if count > u32::MAX as usize {
            self.proofs.insert(program_id, list);
            return Err(Error::Internal("proof identifiers exhausted".to_owned()));
        }
        list.push(proof);
        self.proofs.insert(program_id, list);
        Ok(count as u32)
    }

    /// The setup artifact of `program_id`.
    pub fn get_setup(&self, program_id: u32) -> (result: Result<&S, Error>)
        ensures
            match result {
                Ok(artifact) => self.setups().contains_key(program_id) && *artifact
                    == self.setups()[program_id],
                Err(e) => !self.setups().contains_key(program_id) && e == setup_not_found(
                    program_id,
                ),
            },
    {
        match self.setups.get(&program_id) {
            Some(artifact) => Ok(artifact),
            None => Err(Error::NotFound(MissingObject::Setup { program_id })),
        }
    }

    /// The proof `proof_id` of `program_id`.
    pub fn get_proof(&self, program_id: u32, proof_id: u32) -> (result: Result<&P, Error>)
        ensures
            match result {
                Ok(proof) => proof_id < self.proofs(program_id).len() && *proof == self.proofs(
                    program_id,
                )[proof_id as int],
                Err(e) => proof_id >= self.proofs(program_id).len() && e == proof_not_found(
                    program_id,
                    proof_id,
                ),
            },
    {
        match self.proofs.get(&program_id) {
            Some(list) => {
                if (proof_id as usize) < list.len() {
                    return Ok(&list[proof_id as usize]);
                }
            },
            None => {},
        }
        Err(Error::NotFound(MissingObject::Proof { program_id, proof_id }))
    }

    /// How many proofs `program_id` has.
    pub fn proof_count(&self, program_id: u32) -> (count: usize)
        ensures
            count == self.proofs(program_id).len(),
    {
        match self.proofs.get(&program_id) {
            Some(list) => list.len(),
            None => 0,
        }
    }
}

/// After `k` appends the program has `k` proofs more, and the proofs that
/// were appended stand behind those it had, in the order of the appends.
proof fn lemma_appends_extend<P>(states: Seq<Seq<P>>, added: Seq<P>, ids: Seq<nat>, k: int)
    requires
        states.len() == added.len() + 1,
        ids.len() == added.len(),
        forall|i: int|
            0 <= i < added.len() ==> appended(
                #[trigger] states[i],
                added[i],
                ids[i],
                states[i + 1],
            ),
        0 <= k <= added.len(),
    ensures
        states[k] == states[0] + added.subrange(0, k),
    decreases k,
{
    if k == 0 {
        assert(states[0] =~= states[0] + added.subrange(0, 0));
    } else {
        lemma_appends_extend(states, added, ids, k - 1);
        assert(states[k] =~= states[0] + added.subrange(0, k));
    }
}

/// Proof identifiers count up. When the proofs `added` are appended to one
/// program one after the other, `states` being its proofs before, between and
/// after the appends and `ids` the identifiers returned, then append `k`
/// returns the number of proofs at the start plus `k`, so on a fresh program
/// `0, 1, 2, ...`: none is skipped and none is used twice. Every identifier
/// still names, at the end, the proof that it was given to.
pub proof fn lemma_identifiers_count_up<P>(states: Seq<Seq<P>>, added: Seq<P>, ids: Seq<nat>)
    requires
        states.len() == added.len() + 1,
        ids.len() == added.len(),
        forall|i: int|
            0 <= i < added.len() ==> appended(
                #[trigger] states[i],
                added[i],
                ids[i],
                states[i + 1],
            ),
    ensures
        forall|k: int| 0 <= k < ids.len() ==> #[trigger] ids[k] == states[0].len() + k,
        forall|j: int, k: int| 0 <= j < k < ids.len() ==> ids[j] < ids[k],
        states.last().len() == states[0].len() + added.len(),
        forall|k: int| 0 <= k < ids.len() ==> states.last()[#[trigger] ids[k] as int] == added[k],
        forall|i: int| 0 <= i < states[0].len() ==> #[trigger] states.last()[i] == states[0][i],
{
    assert forall|k: int| 0 <= k < ids.len() implies #[trigger] ids[k] == states[0].len() + k by {
        lemma_appends_extend(states, added, ids, k);
    }
    lemma_appends_extend(states, added, ids, added.len() as int);
}

} // verus!
