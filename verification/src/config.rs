//! The owner guard: one stored identity, and the test that lets only that
//! identity change the configuration.

use crate::error::Error;
use crate::identity::{anonymous, anonymous_bytes, principal_bytes, same_principal};
use candid::Principal;
use vstd::prelude::*;

verus! {

/// The initial configuration.
#[derive(Clone, Copy)]
pub struct Settings {
    /// The principal that owns the service.
    pub owner: Principal,
}

/// The configuration: who owns the service. Until an owner is set, the owner
/// is the anonymous principal and every caller passes the guard.
pub struct Config {
    owner: Principal,
}

/// Whether a caller with the bytes `caller` may change a configuration whose
/// owner has the bytes `owner`: the caller is the owner, or no owner is set.
pub open spec fn authorized(owner: Seq<u8>, caller: Seq<u8>) -> bool {
    owner == caller || owner == anonymous_bytes()
}

impl Config {
    /// The bytes of the owner.
    pub closed spec fn owner_bytes(&self) -> Seq<u8> {
        principal_bytes(self.owner)
    }

    /// A configuration without an owner.
    pub fn new() -> (config: Self)
        ensures
            config.owner_bytes() == anonymous_bytes(),
    {
        Config { owner: anonymous() }
    }

    /// Discards the configuration and starts again from `settings`.
    pub fn reset(&mut self, settings: Settings)
        ensures
            final(self).owner_bytes() == principal_bytes(settings.owner),
    {
        self.owner = settings.owner;
    }

    /// The owner.
    pub fn get_owner(&self) -> (owner: Principal)
        ensures
            principal_bytes(owner) == self.owner_bytes(),
    {
        self.owner
    }

    /// Makes `owner` the owner. This does not test who asks: see
    /// `check_owner`.
    pub fn set_owner(&mut self, owner: Principal) -> (result: Result<(), Error>)
        ensures
            result is Ok,
            final(self).owner_bytes() == principal_bytes(owner),
    {
        self.owner = owner;
        Ok(())
    }

    /// Passes when `caller` is the owner or no owner is set, and fails with
    /// `NotAuthorized` otherwise.
    pub fn check_owner(&self, caller: &Principal) -> (result: Result<(), Error>)
        ensures
            match result {
                Ok(()) => authorized(self.owner_bytes(), principal_bytes(*caller)),
                Err(Error::NotAuthorized) => !authorized(
                    self.owner_bytes(),
                    principal_bytes(*caller),
                ),
                Err(_) => false,
            },
    {
        let unset = anonymous();
        if same_principal(&self.owner, caller) || same_principal(&self.owner, &unset) {
            return Ok(());
        }
        Err(Error::NotAuthorized)
    }
}

impl Default for Config {
    /// A configuration without an owner.
    fn default() -> (config: Self)
        ensures
            config.owner_bytes() == anonymous_bytes(),
    {
        Config::new()
    }
}

} // verus!
