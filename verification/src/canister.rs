//! The service itself: the pending fragments, the object store and the owner
//! guard behind one set of operations.
//!
//! Decoding an object and checking a proof are not done here. The operations
//! that need them take the codec or the verifier as a function, call it once
//! at the right moment and state what they did with its answer.

use crate::chunks::{
    assembled, complete_through, first_missing, lemma_round_trip, names, uploaded, ChunkBuffer,
};
use crate::config::{authorized, Config, Settings};
use crate::error::{proof_not_found, setup_not_found, Error};
use crate::identity::principal_bytes;
use crate::store::ObjectStore;
use candid::Principal;
use vstd::prelude::*;
use vstd::string::StringSliceAdditionalSpecFns;

verus! {

/// What the service is started with.
pub struct InitData {
    /// The principal that owns the service.
    pub owner: Principal,
}

/// The answer to a plain HTTP request.
pub struct HttpResponse {
    /// The HTTP status.
    pub status_code: u16,
    /// The header fields, each a name and a value.
    pub headers: Vec<(String, String)>,
    /// The body.
    pub body: Vec<u8>,
}

/// What the service says of itself to a plain HTTP request.
pub const SERVICE_NOTE: &'static str =
    "This is a Jolt verifier canister.\nUpload the preprocessing of a program in fragments with upload_preprocessing_buffer and finish with preprocessing.\nUpload a proof in fragments with upload_proof_buffer and finish with update_proof, which returns the identifier of the proof.\nCheck a proof with verify_jolt_proof, which takes the identifier of the program and the identifier of the proof.\n";

/// Everything the service holds.
pub struct State<S, P> {
    /// Who owns the service.
    pub config: Config,
    /// The fragments of the object that is being uploaded.
    pub buffer: ChunkBuffer,
    /// The decoded objects.
    pub store: ObjectStore<S, P>,
}

impl<S, P> State<S, P> {
    /// A state without an owner, without fragments and without objects.
    pub fn new() -> (state: Self)
        ensures
            state.config.owner_bytes() == crate::identity::anonymous_bytes(),
            state.buffer@ == Map::<u32, Seq<u8>>::empty(),
            state.store.setups() == Map::<u32, S>::empty(),
            forall|program_id: u32| state.store.proofs(program_id) == Seq::<P>::empty(),
    {
        State { config: Config::new(), buffer: ChunkBuffer::new(), store: ObjectStore::new() }
    }

    /// Starts the configuration again from `settings`. Fragments and objects
    /// stay.
    pub fn reset(&mut self, settings: Settings)
        ensures
            final(self).config.owner_bytes() == principal_bytes(settings.owner),
            final(self).buffer == old(self).buffer,
            final(self).store == old(self).store,
    {
        self.config.reset(settings);
    }
}

impl<S, P> Default for State<S, P> {
    /// A state without an owner, without fragments and without objects.
    fn default() -> (state: Self)
        ensures
            state.config.owner_bytes() == crate::identity::anonymous_bytes(),
            state.buffer@ == Map::<u32, Seq<u8>>::empty(),
            state.store.setups() == Map::<u32, S>::empty(),
            forall|program_id: u32| state.store.proofs(program_id) == Seq::<P>::empty(),
    {
        State::new()
    }
}

/// `outcome` is an answer that `decode` can give for an input that holds
/// `bytes`.
pub open spec fn may_decode<T, D: FnOnce(Vec<u8>) -> Result<T, String>>(
    decode: D,
    bytes: Seq<u8>,
    outcome: Result<T, String>,
) -> bool {
    exists|input: Vec<u8>| input@ == bytes && call_ensures(decode, (input,), outcome)
}

/// `decode` can be called on every input that holds `bytes`.
pub open spec fn accepts<T, D: FnOnce(Vec<u8>) -> Result<T, String>>(
    decode: D,
    bytes: Seq<u8>,
) -> bool {
    forall|input: Vec<u8>| input@ == bytes ==> call_requires(decode, (input,))
}

/// `result` is an answer that a verification may give when the lookup of its
/// inputs ended in `pair` and the check is left to `verify`: the answer of
/// `verify` on the two objects as it is, or the failure of the lookup.
pub open spec fn verification_outcome<S, P, V: FnOnce(&S, &P) -> bool>(
    pair: Result<(S, P), Error>,
    verify: V,
    result: Result<bool, Error>,
) -> bool {
    match pair {
        Ok((setup, proof)) => match result {
            Ok(verdict) => call_ensures(verify, (&setup, &proof), verdict),
            Err(_) => false,
        },
        Err(e) => result == Err::<bool, Error>(e),
    }
}

/// `verify` gives one answer for each setup artifact and proof.
pub open spec fn single_valued<S, P, V: FnOnce(&S, &P) -> bool>(verify: V) -> bool {
    forall|setup: S, proof: P, a: bool, b: bool|
        #![trigger call_ensures(verify, (&setup, &proof), a), call_ensures(verify, (&setup, &proof), b)]
        call_ensures(verify, (&setup, &proof), a) && call_ensures(verify, (&setup, &proof), b)
            ==> a == b
}

/// The verifier service, for setup artifacts of type `S` and proofs of type
/// `P`.
pub struct VerifierCanister<S, P> {
    state: State<S, P>,
}

impl<S, P> VerifierCanister<S, P> {
    /// The pending fragments, by index.
    pub closed spec fn pending(&self) -> Map<u32, Seq<u8>> {
        self.state.buffer@
    }

    /// The setup artifacts, by program identifier.
    pub closed spec fn setups(&self) -> Map<u32, S> {
        self.state.store.setups()
    }

    /// The proofs of a program, each at the place that is its identifier.
    pub closed spec fn proofs(&self, program_id: u32) -> Seq<P> {
        self.state.store.proofs(program_id)
    }

    /// The bytes of the owner.
    pub closed spec fn owner_bytes(&self) -> Seq<u8> {
        self.state.config.owner_bytes()
    }

    /// `self` holds the objects that `other` holds.
    pub open spec fn same_objects(&self, other: &Self) -> bool {
        &&& self.setups() == other.setups()
        &&& forall|program_id: u32| self.proofs(program_id) == other.proofs(program_id)
    }

    /// `self` is in every respect what `other` is.
    pub open spec fn same_state(&self, other: &Self) -> bool {
        &&& self.same_objects(other)
        &&& self.pending() == other.pending()
        &&& self.owner_bytes() == other.owner_bytes()
    }

    /// A service without an owner, without fragments and without objects.
    pub fn new() -> (canister: Self)
        ensures
            canister.owner_bytes() == crate::identity::anonymous_bytes(),
            canister.pending() == Map::<u32, Seq<u8>>::empty(),
            canister.setups() == Map::<u32, S>::empty(),
            forall|program_id: u32| canister.proofs(program_id) == Seq::<P>::empty(),
    {
        VerifierCanister { state: State::new() }
    }

    /// What a verification of the proof `proof_id` of `func_id` works on: the
    /// setup artifact and the proof, or the lookup that fails first. The setup
    /// artifact is looked up before the proof.
    pub open spec fn stored_pair(&self, func_id: u32, proof_id: u32) -> Result<(S, P), Error> {
        if !self.setups().contains_key(func_id) {
            Err(setup_not_found(func_id))
        } else if proof_id >= self.proofs(func_id).len() {
            Err(proof_not_found(func_id, proof_id))
        } else {
            Ok((self.setups()[func_id], self.proofs(func_id)[proof_id as int]))
        }
    }

    /// The setup artifact of `func_id`.
    pub fn get_setup(&self, func_id: u32) -> (result: Result<&S, Error>)
        ensures
            match result {
                Ok(artifact) => self.setups().contains_key(func_id) && *artifact
                    == self.setups()[func_id],
                Err(e) => !self.setups().contains_key(func_id) && e == setup_not_found(func_id),
            },
    {
        self.state.store.get_setup(func_id)
    }

    /// The proof `proof_id` of `func_id`.
    pub fn get_proof(&self, func_id: u32, proof_id: u32) -> (result: Result<&P, Error>)
        ensures
            match result {
                Ok(proof) => proof_id < self.proofs(func_id).len() && *proof == self.proofs(
                    func_id,
                )[proof_id as int],
                Err(e) => proof_id >= self.proofs(func_id).len() && e == proof_not_found(
                    func_id,
                    proof_id,
                ),
            },
    {
        self.state.store.get_proof(func_id, proof_id)
    }

    /// The setup artifact of `func_id` and its proof `proof_id`, as
    /// `stored_pair` says.
    pub fn verification_inputs(&self, func_id: u32, proof_id: u32) -> (result: Result<
        (&S, &P),
        Error,
    >)
        ensures
            match result {
                Ok((setup, proof)) => self.stored_pair(func_id, proof_id) == Ok::<(S, P), Error>(
                    (*setup, *proof),
                ),
                Err(e) => self.stored_pair(func_id, proof_id) == Err::<(S, P), Error>(e),
            },
    {
        let setup = match self.get_setup(func_id) {
            Ok(setup) => setup,
            Err(e) => {
                return Err(e);
            },
        };
        let proof = match self.get_proof(func_id, proof_id) {
            Ok(proof) => proof,
            Err(e) => {
                return Err(e);
            },
        };
        Ok((setup, proof))
    }

    /// Checks the proof `proof_id` of `func_id` against the setup artifact of
    /// `func_id`. When both are stored, `verify` is called on them and its
    /// answer is returned as it is; otherwise `verify` is not called.
    pub fn verify_jolt_proof<V: FnOnce(&S, &P) -> bool>(
        &self,
        func_id: u32,
        proof_id: u32,
        verify: V,
    ) -> (result: Result<bool, Error>)
        requires
            match self.stored_pair(func_id, proof_id) {
                Ok((setup, proof)) => call_requires(verify, (&setup, &proof)),
                Err(_) => true,
            },
        ensures
            verification_outcome(self.stored_pair(func_id, proof_id), verify, result),
    {
        match self.verification_inputs(func_id, proof_id) {
            Ok((setup, proof)) => Ok(verify(setup, proof)),
            Err(e) => Err(e),
        }
    }

    /// `self` is `before` after `artifact` became the setup artifact of
    /// `func_id` and the pending fragments were dropped.
    pub open spec fn setup_installed(&self, before: &Self, func_id: u32, artifact: S) -> bool {
        &&& self.setups() == before.setups().insert(func_id, artifact)
        &&& forall|program_id: u32| self.proofs(program_id) == before.proofs(program_id)
        &&& self.pending() == Map::<u32, Seq<u8>>::empty()
        &&& self.owner_bytes() == before.owner_bytes()
    }

    /// `self` is `before` after `proof` was added to the proofs of `func_id`
    /// and the pending fragments were dropped.
    pub open spec fn proof_installed(&self, before: &Self, func_id: u32, proof: P) -> bool {
        &&& self.proofs(func_id) == before.proofs(func_id).push(proof)
        &&& forall|program_id: u32|
            program_id != func_id ==> self.proofs(program_id) == before.proofs(program_id)
        &&& self.setups() == before.setups()
        &&& self.pending() == Map::<u32, Seq<u8>>::empty()
        &&& self.owner_bytes() == before.owner_bytes()
    }

    /// Starts the service with the owner that `init_data` names.
    pub fn init(&mut self, init_data: InitData)
        ensures
            final(self).owner_bytes() == principal_bytes(init_data.owner),
            final(self).same_objects(old(self)),
            final(self).pending() == old(self).pending(),
    {
        let settings = Settings { owner: init_data.owner };
        self.state.reset(settings);
    }

    /// The owner.
    pub fn get_owner(&self) -> (owner: Principal)
        ensures
            principal_bytes(owner) == self.owner_bytes(),
    {
        self.state.config.get_owner()
    }

    /// Passes when `principal` is the owner or no owner is set, and fails with
    /// `NotAuthorized` otherwise.
    pub fn check_owner(&self, principal: Principal) -> (result: Result<(), Error>)
        ensures
            match result {
                Ok(()) => authorized(self.owner_bytes(), principal_bytes(principal)),
                Err(Error::NotAuthorized) => !authorized(
                    self.owner_bytes(),
                    principal_bytes(principal),
                ),
                Err(_) => false,
            },
    {
        self.state.config.check_owner(&principal)
    }

    /// Makes `owner` the owner, if `caller` is the owner or no owner is set;
    /// otherwise fails with `NotAuthorized` and changes nothing.
    pub fn set_owner(&mut self, caller: Principal, owner: Principal) -> (result: Result<(), Error>)
        ensures
            match result {
                Ok(()) => {
                    &&& authorized(old(self).owner_bytes(), principal_bytes(caller))
                    &&& final(self).owner_bytes() == principal_bytes(owner)
                    &&& final(self).same_objects(old(self))
                    &&& final(self).pending() == old(self).pending()
                },
                Err(Error::NotAuthorized) => {
                    &&& !authorized(old(self).owner_bytes(), principal_bytes(caller))
                    &&& final(self).same_state(old(self))
                },
                Err(_) => false,
            },
    {
        match self.check_owner(caller) {
            Ok(()) => {},
            Err(e) => {
                return Err(e);
            },
        }
        self.state.config.set_owner(owner)
    }

    /// Stores `preprocess` as the fragment `idx` of a setup artifact, in place
    /// of any earlier fragment `idx`.
    pub fn upload_preprocessing_buffer(&mut self, idx: u32, preprocess: Vec<u8>) -> (result:
        Result<(), Error>)
        ensures
            result is Ok,
            final(self).pending() == old(self).pending().insert(idx, preprocess@),
            final(self).same_objects(old(self)),
            final(self).owner_bytes() == old(self).owner_bytes(),
    {
        self.state.buffer.put_chunk(idx, preprocess);
        Ok(())
    }

    /// Stores `buffer` as the fragment `idx` of a proof, in place of any
    /// earlier fragment `idx`. Fragments of setup artifacts and of proofs
    /// share one buffer.
    pub fn upload_proof_buffer(&mut self, idx: u32, buffer: Vec<u8>) -> (result: Result<
        (),
        Error,
    >)
        ensures
            result is Ok,
            final(self).pending() == old(self).pending().insert(idx, buffer@),
            final(self).same_objects(old(self)),
            final(self).owner_bytes() == old(self).owner_bytes(),
    {
        self.state.buffer.put_chunk(idx, buffer);
        Ok(())
    }

    /// A copy of the pending fragment `idx`, if there is one.
    pub fn get_buffer(&self, idx: u32) -> (found: Option<Vec<u8>>)
        ensures
            match found {
                Some(bytes) => self.pending().contains_key(idx) && bytes@ == self.pending()[idx],
                None => !self.pending().contains_key(idx),
            },
    {
        self.state.buffer.get_chunk(idx)
    }

    /// Drops every pending fragment.
    pub fn clear_buffer(&mut self) -> (result: Result<(), Error>)
        ensures
            result is Ok,
            final(self).pending() == Map::<u32, Seq<u8>>::empty(),
            final(self).same_objects(old(self)),
            final(self).owner_bytes() == old(self).owner_bytes(),
    {
        self.state.buffer.clear();
        Ok(())
    }

    /// Answers a plain HTTP request with a note on the service, as text.
    pub fn http_request(&self) -> (response: HttpResponse)
        ensures
            response.status_code == 200,
            response.headers@.len() == 1,
            response.headers@[0].0@ == "content-type"@,
            response.headers@[0].1@ == "text/plain"@,
            response.body@ == SERVICE_NOTE.spec_bytes(),
    {
        let mut headers: Vec<(String, String)> = Vec::new();
        headers.push(("content-type".to_owned(), "text/plain".to_owned()));
        HttpResponse {
            status_code: 200,
            headers,
            body: vstd::slice::slice_to_vec(SERVICE_NOTE.as_bytes()),
        }
    }

    /// The object that the fragments `0 ..= end` make up, or the first index
    /// without a fragment. Nothing changes.
    pub fn assemble(&self, end: u32) -> (result: Result<Vec<u8>, Error>)
        ensures
            match result {
                Ok(bytes) => complete_through(self.pending(), end) && bytes@ == assembled(
                    self.pending(),
                    end,
                ),
                Err(Error::MissingChunk(index)) => first_missing(self.pending(), end, index),
                Err(_) => false,
            },
    {
        self.state.buffer.assemble(end)
    }

    /// Takes the codec's answer for an assembled setup artifact. An object
    /// becomes the setup artifact of `func_id`, in place of any earlier one,
    /// and the pending fragments are dropped. A refusal is reported as
    /// `DeserializationError` and changes nothing.
    pub fn install_setup(&mut self, func_id: u32, decoded: Result<S, String>) -> (result: Result<
        (),
        Error,
    >)
        ensures
            match decoded {
                Ok(artifact) => result is Ok && final(self).setup_installed(
                    old(self),
                    func_id,
                    artifact,
                ),
                Err(reason) => result == Err::<(), Error>(Error::DeserializationError(reason))
                    && final(self).same_state(old(self)),
            },
    {
        match decoded {
            Ok(artifact) => {
                self.state.store.store_setup(func_id, artifact);
                self.state.buffer.clear();
                Ok(())
            },
            Err(reason) => Err(Error::DeserializationError(reason)),
        }
    }

    /// Takes the codec's answer for an assembled proof. An object is added to
    /// the proofs of `func_id`, its identifier is the number of proofs that
    /// `func_id` had before, and the pending fragments are dropped. A refusal
    /// is reported as `DeserializationError`, and a program that has used up
    /// the identifiers as `Internal`; both change nothing.
    pub fn install_proof(&mut self, func_id: u32, decoded: Result<P, String>) -> (result: Result<
        u32,
        Error,
    >)
        ensures
            match decoded {
                Ok(proof) => if old(self).proofs(func_id).len() <= u32::MAX {
                    &&& result == Ok::<u32, Error>(old(self).proofs(func_id).len() as u32)
                    &&& final(self).proof_installed(old(self), func_id, proof)
                } else {
                    &&& result matches Err(Error::Internal(reason))
                    &&& reason@ == crate::store::identifiers_exhausted()
                    &&& final(self).same_state(old(self))
                },
                Err(reason) => result == Err::<u32, Error>(Error::DeserializationError(reason))
                    && final(self).same_state(old(self)),
            },
    {
        match decoded {
            Ok(proof) => {
                match self.state.store.append_proof(func_id, proof) {
                    Ok(proof_id) => {
                        self.state.buffer.clear();
                        Ok(proof_id)
                    },
                    Err(e) => Err(e),
                }
            },
            Err(reason) => Err(Error::DeserializationError(reason)),
        }
    }

    /// Decodes the object that the fragments `0 ..= end` make up and makes it
    /// the setup artifact of `func_id`. All or nothing: unless every fragment
    /// is there and `decode` accepts the bytes, nothing changes. `decode` is
    /// called at most once, on the assembled bytes.
    pub fn preprocessing<D: FnOnce(Vec<u8>) -> Result<S, String>>(
        &mut self,
        end: u32,
        func_id: u32,
        decode: D,
    ) -> (result: Result<(), Error>)
        requires
            complete_through(old(self).pending(), end) ==> accepts(
                decode,
                assembled(old(self).pending(), end),
            ),
        ensures
            match result {
                Ok(()) => exists|artifact: S|
                    {
                        &&& complete_through(old(self).pending(), end)
                        &&& #[trigger] may_decode(
                            decode,
                            assembled(old(self).pending(), end),
                            Ok(artifact),
                        )
                        &&& final(self).setup_installed(old(self), func_id, artifact)
                    },
                Err(Error::MissingChunk(index)) => {
                    &&& first_missing(old(self).pending(), end, index)
                    &&& final(self).same_state(old(self))
                },
                Err(Error::DeserializationError(reason)) => {
                    &&& complete_through(old(self).pending(), end)
                    &&& may_decode(decode, assembled(old(self).pending(), end), Err(reason))
                    &&& final(self).same_state(old(self))
                },
                Err(_) => false,
            },
    {
        let bytes = match self.assemble(end) {
            Ok(bytes) => bytes,
            Err(e) => {
                return Err(e);
            },
        };
        let decoded = decode(bytes);
        assert(may_decode(decode, assembled(old(self).pending(), end), decoded));
        self.install_setup(func_id, decoded)
    }

    /// Decodes the object that the fragments `0 ..= end` make up and adds it
    /// to the proofs of `func_id`. Returns the identifier of the new proof:
    /// the number of proofs that `func_id` had before. All or nothing, as
    /// `preprocessing` is.
    pub fn update_proof<D: FnOnce(Vec<u8>) -> Result<P, String>>(
        &mut self,
        end: u32,
        func_id: u32,
        decode: D,
    ) -> (result: Result<u32, Error>)
        requires
            complete_through(old(self).pending(), end) ==> accepts(
                decode,
                assembled(old(self).pending(), end),
            ),
        ensures
            match result {
                Ok(proof_id) => exists|proof: P|
                    {
                        &&& complete_through(old(self).pending(), end)
                        &&& #[trigger] may_decode(
                            decode,
                            assembled(old(self).pending(), end),
                            Ok(proof),
                        )
                        &&& proof_id == old(self).proofs(func_id).len()
                        &&& final(self).proof_installed(old(self), func_id, proof)
                    },
                Err(Error::MissingChunk(index)) => {
                    &&& first_missing(old(self).pending(), end, index)
                    &&& final(self).same_state(old(self))
                },
                Err(Error::DeserializationError(reason)) => {
                    &&& complete_through(old(self).pending(), end)
                    &&& may_decode(decode, assembled(old(self).pending(), end), Err(reason))
                    &&& final(self).same_state(old(self))
                },
                Err(Error::Internal(reason)) => {
                    &&& complete_through(old(self).pending(), end)
                    &&& exists|proof: P| #[trigger]
                        may_decode(decode, assembled(old(self).pending(), end), Ok(proof))
                    &&& old(self).proofs(func_id).len() > u32::MAX
                    &&& reason@ == crate::store::identifiers_exhausted()
                    &&& final(self).same_state(old(self))
                },
                Err(_) => false,
            },
    {
        let bytes = match self.assemble(end) {
            Ok(bytes) => bytes,
            Err(e) => {
                return Err(e);
            },
        };
        let decoded = decode(bytes);
        proof {
            let joined = assembled(old(self).pending(), end);
            if decoded is Ok {
                assert(may_decode(decode, joined, Ok::<P, String>(decoded->Ok_0)));
            }
        }
        self.install_proof(func_id, decoded)
    }
}

/// Round trip through the codec: when an object's bytes are cut into `parts`
/// at any places and part `i` is uploaded under index `i`, in any order, then
/// what the codec answers for the assembled bytes is what it answers for the
/// bytes that were never cut, provided the codec gives one answer for them.
pub proof fn lemma_split_object<T, D: FnOnce(Vec<u8>) -> Result<T, String>>(
    decode: D,
    chunks: Map<u32, Seq<u8>>,
    parts: Seq<Seq<u8>>,
    uploads: Seq<(u32, Seq<u8>)>,
    direct: Result<T, String>,
    assembled_outcome: Result<T, String>,
)
    requires
        0 < parts.len() <= u32::MAX + 1,
        forall|j: int|
            0 <= j < uploads.len() && (#[trigger] uploads[j]).0 < parts.len() ==> uploads[j].1
                == parts[uploads[j].0 as int],
        forall|index: u32| index < parts.len() ==> #[trigger] names(uploads, index),
        forall|a: Result<T, String>, b: Result<T, String>|
            may_decode(decode, parts.flatten(), a) && may_decode(decode, parts.flatten(), b) ==> a
                == b,
        may_decode(decode, parts.flatten(), direct),
        may_decode(
            decode,
            assembled(uploaded(chunks, uploads), (parts.len() - 1) as u32),
            assembled_outcome,
        ),
    ensures
        complete_through(uploaded(chunks, uploads), (parts.len() - 1) as u32),
        assembled_outcome == direct,
{
    lemma_round_trip(chunks, parts, uploads);
}

/// Verification repeats itself: two verifications of the same proof of the
/// same program, between which neither that proof nor the program's setup
/// artifact changed, give the same answer, provided the verifier gives one
/// answer for each input.
pub proof fn lemma_verification_repeats<S, P, V: FnOnce(&S, &P) -> bool>(
    first: &VerifierCanister<S, P>,
    second: &VerifierCanister<S, P>,
    func_id: u32,
    proof_id: u32,
    verify: V,
    first_result: Result<bool, Error>,
    second_result: Result<bool, Error>,
)
    requires
        single_valued(verify),
        first.setups().contains_key(func_id) == second.setups().contains_key(func_id),
        first.setups().contains_key(func_id) ==> first.setups()[func_id] == second.setups()[func_id],
        (proof_id < first.proofs(func_id).len()) == (proof_id < second.proofs(func_id).len()),
        proof_id < first.proofs(func_id).len() ==> first.proofs(func_id)[proof_id as int]
            == second.proofs(func_id)[proof_id as int],
        verification_outcome(first.stored_pair(func_id, proof_id), verify, first_result),
        verification_outcome(second.stored_pair(func_id, proof_id), verify, second_result),
    ensures
        first_result == second_result,
{
}

} // verus!
