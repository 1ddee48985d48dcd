use jolt_verifier::error::{Error, MissingObject};
use jolt_verifier::store::ObjectStore;

#[test]
fn an_empty_store_finds_nothing() {
    let store: ObjectStore<String, String> = ObjectStore::new();
    assert_eq!(
        store.get_setup(0),
        Err(Error::NotFound(MissingObject::Setup { program_id: 0 }))
    );
    assert_eq!(
        store.get_proof(3, 4),
        Err(Error::NotFound(MissingObject::Proof { program_id: 3, proof_id: 4 }))
    );
    assert_eq!(store.proof_count(3), 0);
}

#[test]
fn store_setup_replaces_the_earlier_artifact() {
    let mut store: ObjectStore<&str, u8> = ObjectStore::new();
    store.store_setup(1, "first");
    store.store_setup(2, "other");
    assert_eq!(store.get_setup(1), Ok(&"first"));
    store.store_setup(1, "second");
    assert_eq!(store.get_setup(1), Ok(&"second"));
    assert_eq!(store.get_setup(2), Ok(&"other"));
    assert_eq!(
        store.get_setup(3),
        Err(Error::NotFound(MissingObject::Setup { program_id: 3 }))
    );
}

#[test]
fn proof_identifiers_count_up_from_zero() {
    let mut store: ObjectStore<u8, &str> = ObjectStore::new();
    assert_eq!(store.append_proof(7, "a"), Ok(0));
    assert_eq!(store.append_proof(7, "b"), Ok(1));
    assert_eq!(store.append_proof(7, "c"), Ok(2));
    assert_eq!(store.proof_count(7), 3);
    assert_eq!(store.get_proof(7, 0), Ok(&"a"));
    assert_eq!(store.get_proof(7, 1), Ok(&"b"));
    assert_eq!(store.get_proof(7, 2), Ok(&"c"));
    assert_eq!(
        store.get_proof(7, 3),
        Err(Error::NotFound(MissingObject::Proof { program_id: 7, proof_id: 3 }))
    );
}

#[test]
fn proof_identifiers_are_counted_per_program() {
    let mut store: ObjectStore<u8, u32> = ObjectStore::new();
    assert_eq!(store.append_proof(1, 10), Ok(0));
    assert_eq!(store.append_proof(2, 20), Ok(0));
    assert_eq!(store.append_proof(1, 11), Ok(1));
    assert_eq!(store.append_proof(u32::MAX, 30), Ok(0));
    assert_eq!(store.append_proof(2, 21), Ok(1));
    assert_eq!(store.append_proof(1, 12), Ok(2));
    assert_eq!(store.get_proof(1, 1), Ok(&11));
    assert_eq!(store.get_proof(2, 1), Ok(&21));
    assert_eq!(store.get_proof(u32::MAX, 0), Ok(&30));
    assert_eq!(store.proof_count(1), 3);
    assert_eq!(store.proof_count(2), 2);
    assert_eq!(store.proof_count(0), 0);
}

#[test]
fn a_long_run_of_appends_skips_and_reuses_nothing() {
    let mut store: ObjectStore<u8, u32> = ObjectStore::new();
    for expected in 0..500u32 {
        assert_eq!(store.append_proof(9, expected * 3), Ok(expected));
    }
    for proof_id in 0..500u32 {
        assert_eq!(store.get_proof(9, proof_id), Ok(&(proof_id * 3)));
    }
}

#[test]
fn setups_and_proofs_do_not_touch_each_other() {
    let mut store: ObjectStore<u8, u8> = ObjectStore::new();
    store.store_setup(1, 100);
    assert_eq!(store.proof_count(1), 0);
    assert_eq!(store.append_proof(1, 5), Ok(0));
    assert_eq!(store.get_setup(1), Ok(&100));
    store.store_setup(1, 101);
    assert_eq!(store.get_proof(1, 0), Ok(&5));
    assert_eq!(store.append_proof(2, 6), Ok(0));
    assert_eq!(
        store.get_setup(2),
        Err(Error::NotFound(MissingObject::Setup { program_id: 2 }))
    );
}
