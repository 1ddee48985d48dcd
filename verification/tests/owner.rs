use candid::Principal;
use jolt_verifier::config::{Config, Settings};
use jolt_verifier::error::Error;

fn alice() -> Principal {
    Principal::from_slice(&[1, 2, 3])
}

fn bob() -> Principal {
    Principal::from_slice(&[1, 2, 4])
}

#[test]
fn a_new_configuration_has_the_anonymous_owner() {
    let config = Config::new();
    assert_eq!(config.get_owner(), Principal::anonymous());
    assert_eq!(config.get_owner().as_slice(), &[4u8][..]);
}

#[test]
fn without_an_owner_every_caller_passes() {
    let config = Config::new();
    assert_eq!(config.check_owner(&alice()), Ok(()));
    assert_eq!(config.check_owner(&bob()), Ok(()));
    assert_eq!(config.check_owner(&Principal::anonymous()), Ok(()));
    assert_eq!(config.check_owner(&Principal::management_canister()), Ok(()));
}

#[test]
fn with_an_owner_only_the_owner_passes() {
    let mut config = Config::new();
    assert_eq!(config.set_owner(alice()), Ok(()));
    assert_eq!(config.get_owner(), alice());
    assert_eq!(config.check_owner(&alice()), Ok(()));
    assert_eq!(config.check_owner(&bob()), Err(Error::NotAuthorized));
    assert_eq!(config.check_owner(&Principal::anonymous()), Err(Error::NotAuthorized));
    assert_eq!(
        config.check_owner(&Principal::management_canister()),
        Err(Error::NotAuthorized)
    );
}

#[test]
fn principals_are_compared_by_their_bytes() {
    let mut config = Config::new();
    let _ = config.set_owner(Principal::from_slice(&[5, 0]));
    assert_eq!(config.check_owner(&Principal::from_slice(&[5, 0])), Ok(()));
    assert_eq!(config.check_owner(&Principal::from_slice(&[5])), Err(Error::NotAuthorized));
    assert_eq!(
        config.check_owner(&Principal::from_slice(&[5, 0, 0])),
        Err(Error::NotAuthorized)
    );
    let text = Principal::from_text("aaaaa-aa").unwrap();
    let _ = config.set_owner(text);
    assert_eq!(config.check_owner(&Principal::management_canister()), Ok(()));
    assert_eq!(config.check_owner(&Principal::from_slice(&[0])), Err(Error::NotAuthorized));
}

#[test]
fn an_owner_that_is_the_four_byte_alone_counts_as_unset() {
    let mut config = Config::new();
    let _ = config.set_owner(alice());
    let _ = config.set_owner(Principal::from_slice(&[4]));
    assert_eq!(config.check_owner(&bob()), Ok(()));
    let _ = config.set_owner(Principal::from_slice(&[4, 0]));
    assert_eq!(config.check_owner(&bob()), Err(Error::NotAuthorized));
}

#[test]
fn reset_starts_again_from_the_settings() {
    let mut config = Config::new();
    let _ = config.set_owner(alice());
    config.reset(Settings { owner: bob() });
    assert_eq!(config.get_owner(), bob());
    assert_eq!(config.check_owner(&alice()), Err(Error::NotAuthorized));
    config.reset(Settings { owner: Principal::anonymous() });
    assert_eq!(config.check_owner(&alice()), Ok(()));
}
