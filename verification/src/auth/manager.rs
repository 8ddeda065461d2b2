//! The bookkeeping of stored credentials: which accounts are known, where
//! their secrets are kept, and which one is the default. The secrets
//! themselves live in the OS keyring, which the caller reaches.
use vstd::prelude::*;
use std::collections::HashMap;
use crate::auth::types::{Account, AuthError, Config, handle_index, lemma_handle_index, system_now, without_handle};
use crate::text::{owned, str_eq};

verus! {

/// The known accounts and the default one, as kept in the configuration.
pub struct CredentialManager {
    pub config: Config,
}

/// An account that has just been given credentials: known by its handle
/// alone, kept in the keyring, with nothing else recorded yet.
pub open spec fn fresh_account(a: Account, handle: Seq<char>) -> bool {
    &&& a.handle@ == handle
    &&& a.did@ == Seq::<char>::empty()
    &&& a.pds@ == Seq::<char>::empty()
    &&& a.storage_ref@ == "keyring"@
    &&& a.metadata@ == Map::<String, String>::empty()
}

/// `b` is `a` with only its last use changed.
pub open spec fn touched(a: Account, b: Account) -> bool {
    &&& b.handle == a.handle
    &&& b.did == a.did
    &&& b.pds == a.pds
    &&& b.storage_ref == a.storage_ref
    &&& b.created_at == a.created_at
    &&& b.metadata == a.metadata
}

/// `b` is a copy of `a`: the same texts, times and metadata.
pub open spec fn copy_of(b: Account, a: Account) -> bool {
    &&& b.handle@ == a.handle@
    &&& b.did@ == a.did@
    &&& b.pds@ == a.pds@
    &&& b.storage_ref@ == a.storage_ref@
    &&& b.created_at == a.created_at
    &&& b.last_used == a.last_used
    &&& b.metadata@ == a.metadata@
}

/// A copy of an account.
fn copy_account(a: &Account) -> (b: Account)
    ensures
        copy_of(b, *a),
{
    Account {
        handle: owned(a.handle.as_str()),
        did: owned(a.did.as_str()),
        pds: owned(a.pds.as_str()),
        storage_ref: owned(a.storage_ref.as_str()),
        created_at: a.created_at.clone(),
        last_used: a.last_used.clone(),
        metadata: a.metadata.clone(),
    }
}

impl CredentialManager {
    /// A manager over a loaded configuration.
    pub fn with_config(config: Config) -> (m: Self)
        ensures
            m.config == config,
    {
        CredentialManager { config }
    }

    /// Records that credentials for `handle` were stored in the keyring:
    /// an account already known is marked as used now, any other is added.
    /// Without a keyring nothing is stored and the configuration is left as
    /// it was.
    pub fn store_credentials(&mut self, handle: &str, keyring_available: bool) -> (r: Result<(), AuthError>)
        ensures
            !keyring_available ==> (r matches Err(AuthError::KeyringUnavailable(_)) && final(self).config == old(self).config),
            keyring_available ==> r is Ok && match handle_index(old(self).config.accounts@, handle@) {
                Some(i) => final(self).config.accounts@.len() == old(self).config.accounts@.len()
                    && (forall|j: int| 0 <= j < old(self).config.accounts@.len() && j != i
                        ==> final(self).config.accounts@[j] == old(self).config.accounts@[j])
                    && touched(old(self).config.accounts@[i], final(self).config.accounts@[i]),
                None => final(self).config.accounts@.len() == old(self).config.accounts@.len() + 1
                    && final(self).config.accounts@.drop_last() == old(self).config.accounts@
                    && fresh_account(final(self).config.accounts@.last(), handle@),
            },
            final(self).config.default_account == old(self).config.default_account,
            final(self).config.version == old(self).config.version,
            final(self).config.settings == old(self).config.settings,
    {
        if !keyring_available {
            return Err(AuthError::KeyringUnavailable(owned(
                "Keyring not available and encrypted file storage not yet implemented",
            )));
        }
        proof {
            lemma_handle_index(self.config.accounts@, handle@);
        }
        match self.config.get_account_mut(handle) {
            Some(account) => {
                account.last_used = system_now();
            },
            None => {
                let account = Account {
                    handle: owned(handle),
                    did: String::new(),
                    pds: String::new(),
                    storage_ref: owned("keyring"),
                    created_at: system_now(),
                    last_used: system_now(),
                    metadata: HashMap::new(),
                };
                self.config.add_account(account);
                proof {
                    let olds = old(self).config.accounts@;
                    assert(self.config.accounts@ == olds.push(account));
                    assert(self.config.accounts@.drop_last() =~= olds);
                }
            },
        }
        Ok(())
    }

    /// Where the credentials of `handle` are kept: the keyring is the only
    /// store there is; an unknown account, or one kept anywhere else, is an
    /// error.
    pub fn credentials_source(&self, handle: &str) -> (r: Result<(), AuthError>)
        ensures
            match handle_index(self.config.accounts@, handle@) {
                None => r matches Err(AuthError::AccountNotFound(h)) && h@ == handle@,
                Some(i) => if self.config.accounts@[i].storage_ref@ == "keyring"@ {
                    r is Ok
                } else {
                    r matches Err(AuthError::ConfigError(_))
                },
            },
    {
        match self.config.get_account(handle) {
            None => Err(AuthError::AccountNotFound(owned(handle))),
            Some(account) => {
                if str_eq(account.storage_ref.as_str(), "keyring") {
                    Ok(())
                } else {
                    let mut m = owned("Storage backend ");
                    crate::text::push_str(&mut m, account.storage_ref.as_str());
                    crate::text::push_str(&mut m, " not yet implemented");
                    Err(AuthError::ConfigError(m))
                }
            },
        }
    }

    /// Forgets the account `handle`: it is removed, and it is no longer the
    /// default. Whether its secrets were in the keyring is returned, for the
    /// caller to delete them there first. An unknown account is an error and
    /// changes nothing.
    pub fn delete_credentials(&mut self, handle: &str) -> (r: Result<bool, AuthError>)
        ensures
            match handle_index(old(self).config.accounts@, handle@) {
                None => r matches Err(AuthError::AccountNotFound(h)) && h@ == handle@
                    && final(self).config == old(self).config,
                Some(i) => r == Ok::<bool, AuthError>(old(self).config.accounts@[i].storage_ref@ == "keyring"@)
                    && final(self).config.accounts@ == without_handle(old(self).config.accounts@, handle@)
                    && final(self).config.default_account == (
                        if old(self).config.default_account matches Some(d) && d@ == handle@ {
                            None
                        } else {
                            old(self).config.default_account
                        }),
            },
            final(self).config.version == old(self).config.version,
            final(self).config.settings == old(self).config.settings,
    {
        let in_keyring = match self.config.get_account(handle) {
            None => {
                return Err(AuthError::AccountNotFound(owned(handle)));
            },
            Some(account) => str_eq(account.storage_ref.as_str(), "keyring"),
        };
        self.config.remove_account(handle);
        let clear = match &self.config.default_account {
            Some(d) => str_eq(d.as_str(), handle),
            None => false,
        };
        if clear {
            self.config.default_account = None;
        }
        Ok(in_keyring)
    }

    /// Makes `handle` the default account; an unknown account is an error
    /// and changes nothing.
    pub fn set_default_account(&mut self, handle: &str) -> (r: Result<(), AuthError>)
        ensures
            match handle_index(old(self).config.accounts@, handle@) {
                None => r matches Err(AuthError::AccountNotFound(h)) && h@ == handle@
                    && final(self).config == old(self).config,
                Some(_) => r is Ok && (final(self).config.default_account matches Some(d) && d@ == handle@)
                    && final(self).config.accounts == old(self).config.accounts,
            },
            final(self).config.version == old(self).config.version,
            final(self).config.settings == old(self).config.settings,
    {
        if self.config.get_account(handle).is_none() {
            return Err(AuthError::AccountNotFound(owned(handle)));
        }
        self.config.default_account = Some(owned(handle));
        Ok(())
    }

    /// The known accounts, in order.
    pub fn list_accounts(&self) -> (r: Vec<Account>)
        ensures
            r@.len() == self.config.accounts@.len(),
            forall|i: int| 0 <= i < r@.len() ==> copy_of(#[trigger] r@[i], self.config.accounts@[i]),
    {
        let mut out: Vec<Account> = Vec::new();
        let mut i: usize = 0;
        while i < self.config.accounts.len()
            invariant
                i <= self.config.accounts@.len(),
                out@.len() == i,
                forall|k: int| 0 <= k < i ==> copy_of(#[trigger] out@[k], self.config.accounts@[k]),
            decreases self.config.accounts@.len() - i,
        {
            out.push(copy_account(&self.config.accounts[i]));
            i = i + 1;
        }
        out
    }

    /// The handle of the default account.
    pub fn get_default_account(&self) -> (r: Option<String>)
        ensures
            crate::text::opt_view(r) == crate::text::opt_view(self.config.default_account),
    {
        match &self.config.default_account {
            Some(d) => Some(owned(d.as_str())),
            None => None,
        }
    }
}

} // verus!
