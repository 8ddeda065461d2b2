//! Where login credentials are kept: the OS keyring when the platform offers
//! one, otherwise a JSON file in the user's configuration directory. The
//! file's contents are a value here (accounts by handle, each with its
//! credentials and its last session, and the default account), and so is the
//! account list the keyring keeps beside the secrets; the program reads and
//! writes them.
use vstd::prelude::*;
use crate::auth::credentials::Credentials;
use crate::auth::types::AuthError;
use crate::cache::path_join;
use crate::text::{owned, push_str, str_eq};

verus! {

/// Where credentials are kept.
#[derive(Debug, Clone, Copy, PartialEq, Eq, Structural)]
pub enum StorageBackend {
    /// The OS native keyring.
    Keyring,
    /// A JSON file in the user's configuration directory.
    File,
}

/// The keyring service under which every entry is kept.
pub open spec fn service_name() -> Seq<char> {
    "autoreply-bluesky"@
}

/// The keyring service under which every entry is kept.
pub fn keyring_service() -> (s: String)
    ensures
        s@ == service_name(),
{
    owned("autoreply-bluesky")
}

/// The keyring entry that holds the default account's handle.
pub open spec fn default_account_key() -> Seq<char> {
    "default_account"@
}

/// The keyring entry that holds the default account's handle.
pub fn default_account_entry() -> (s: String)
    ensures
        s@ == default_account_key(),
{
    owned("default_account")
}

/// The keyring entry that holds the list of account handles.
pub open spec fn account_list_key() -> Seq<char> {
    "account_list"@
}

/// The keyring entry that holds the list of account handles.
pub fn account_list_entry() -> (s: String)
    ensures
        s@ == account_list_key(),
{
    owned("account_list")
}

/// The keyring entry that holds the session of `handle`.
pub open spec fn session_key_of(handle: Seq<char>) -> Seq<char> {
    handle + "_session"@
}

/// The keyring entry that holds the session of `handle`.
pub fn session_key(handle: &str) -> (s: String)
    ensures
        s@ == session_key_of(handle@),
{
    let mut s = owned(handle);
    push_str(&mut s, "_session");
    s
}

/// The credentials file under the configuration directory `config_dir`.
pub open spec fn storage_file_path(config_dir: Seq<char>) -> Seq<char> {
    path_join(path_join(config_dir, "autoreply"@), "credentials.json"@)
}

/// The directory that holds the credentials file.
pub open spec fn storage_dir_path(config_dir: Seq<char>) -> Seq<char> {
    path_join(config_dir, "autoreply"@)
}

/// Whether `keyring::Entry::new(service, user)` succeeds, that is whether
/// the platform's credential store can make an entry. Nothing is stated of
/// the answer: it depends on the platform and on the credential builder the
/// process installed.
#[verifier::external_body]
fn keyring_entry_available(service: &str, user: &str) -> (r: bool) {
    keyring::Entry::new(service, user).is_ok()
}

/// `dirs::config_dir()`, the user's configuration directory, as text (a
/// path that is not UTF-8 is converted lossily). Nothing is stated of it: it
/// is read from the environment.
#[verifier::external_body]
fn user_config_dir() -> (r: Option<String>) {
    dirs::config_dir().map(|p| p.to_string_lossy().into_owned())
}

/// Where credentials are kept: the backend, and for the file backend the
/// path of the file.
pub struct CredentialStorage {
    backend: StorageBackend,
    file_path: Option<String>,
}

impl CredentialStorage {
    /// The backend.
    pub closed spec fn backend_of(&self) -> StorageBackend {
        self.backend
    }

    /// The credentials file's path, for the file backend.
    pub closed spec fn file_path_of(&self) -> Option<Seq<char>> {
        match self.file_path {
            Some(p) => Some(p@),
            None => None,
        }
    }

    /// The storage chosen from a probe of the keyring and the user's
    /// configuration directory: the keyring when it is available; otherwise
    /// the file `autoreply/credentials.json` under the configuration
    /// directory, and an error when there is none.
    pub fn from_probe(keyring_available: bool, config_dir: Option<String>) -> (r: Result<Self, AuthError>)
        ensures
            keyring_available ==> (r matches Ok(s) && s.backend_of() == StorageBackend::Keyring
                && s.file_path_of() is None),
            !keyring_available ==> match config_dir {
                Some(d) => r matches Ok(s) && s.backend_of() == StorageBackend::File
                    && s.file_path_of() == Some(storage_file_path(d@)),
                None => r matches Err(AuthError::ConfigError(m)) && m@ == "Could not find config directory"@,
            },
    {
        if keyring_available {
            return Ok(CredentialStorage { backend: StorageBackend::Keyring, file_path: None });
        }
        match config_dir {
            Some(d) => {
                let dir = crate::cache::join_path(d.as_str(), "autoreply");
                let path = crate::cache::join_path(dir.as_str(), "credentials.json");
                Ok(CredentialStorage { backend: StorageBackend::File, file_path: Some(path) })
            },
            None => Err(AuthError::ConfigError(owned("Could not find config directory"))),
        }
    }

    /// The storage of this machine: the keyring when an entry can be made
    /// for the service, otherwise the credentials file (see `from_probe`). The
    /// program creates the file's directory before it writes the file.
    pub fn new() -> (r: Result<Self, AuthError>)
        ensures
            (r matches Ok(s)) ==> ((r->Ok_0.backend_of() == StorageBackend::Keyring
                && r->Ok_0.file_path_of() is None) || (r->Ok_0.backend_of() == StorageBackend::File
                && exists|d: Seq<char>| r->Ok_0.file_path_of() == Some(storage_file_path(d)))),
            (r matches Err(e)) ==> (r->Err_0 matches AuthError::ConfigError(m) && m@
                == "Could not find config directory"@),
    {
        let service = keyring_service();
        let available = keyring_entry_available(service.as_str(), "test");
        if available {
            Self::from_probe(true, None)
        } else {
            let dir = user_config_dir();
            let ghost probed = dir;
            let r = Self::from_probe(false, dir);
            proof {
                if let Some(d) = probed {
                    assert(r->Ok_0.file_path_of() == Some(storage_file_path(d@)));
                }
            }
            r
        }
    }

    /// The backend.
    pub fn backend(&self) -> (b: StorageBackend)
        ensures
            b == self.backend_of(),
    {
        self.backend
    }

    /// The credentials file's path, for the file backend.
    pub fn file_path(&self) -> (p: Option<&str>)
        ensures
            match p {
                Some(s) => self.file_path_of() == Some(s@),
                None => self.file_path_of() is None,
            },
    {
        match &self.file_path {
            Some(s) => Some(s.as_str()),
            None => None,
        }
    }

    /// How a login reports where the credentials went.
    pub fn backend_label(&self) -> (s: String)
        ensures
            s@ == match self.backend_of() {
                StorageBackend::Keyring => "OS keyring"@,
                StorageBackend::File => "file"@,
            },
    {
        match self.backend {
            StorageBackend::Keyring => owned("OS keyring"),
            StorageBackend::File => owned("file"),
        }
    }
}

/// What an account in the credentials file holds, as values.
pub struct AccountView {
    pub identifier: Seq<char>,
    pub password: Seq<char>,
    pub service: Seq<char>,
    pub session: Option<Seq<char>>,
}

/// An account in the credentials file: its credentials, and the JSON text
/// of its last session when one was stored.
pub struct StoredAccount {
    pub credentials: Credentials,
    pub session: Option<String>,
}

impl View for StoredAccount {
    type V = AccountView;

    open spec fn view(&self) -> AccountView {
        AccountView {
            identifier: self.credentials.identifier@,
            password: self.credentials.password@,
            service: self.credentials.service@,
            session: match self.session {
                Some(t) => Some(t@),
                None => None,
            },
        }
    }
}

/// What the credentials file holds, as values: the accounts by handle, and
/// the default account.
pub struct FileStorageView {
    pub accounts: Map<Seq<char>, AccountView>,
    pub default_account: Option<Seq<char>>,
}

/// The accounts of a list of entries by handle; a later entry for a handle
/// takes the place of an earlier one.
pub open spec fn accounts_map(s: Seq<(String, StoredAccount)>) -> Map<Seq<char>, AccountView>
    decreases s.len(),
{
    if s.len() == 0 {
        Map::empty()
    } else {
        accounts_map(s.drop_last()).insert(s.last().0@, s.last().1@)
    }
}

/// No two entries share a handle.
pub open spec fn unique_handles(s: Seq<(String, StoredAccount)>) -> bool {
    forall|i: int, j: int| 0 <= i < j < s.len() ==> s[i].0@ != s[j].0@
}

/// The contents of the credentials file: the accounts, one entry per
/// handle, and the default account.
pub struct FileStorage {
    accounts: Vec<(String, StoredAccount)>,
    default_account: Option<String>,
}

impl View for FileStorage {
    type V = FileStorageView;

    closed spec fn view(&self) -> FileStorageView {
        FileStorageView {
            accounts: accounts_map(self.accounts@),
            default_account: match self.default_account {
                Some(d) => Some(d@),
                None => None,
            },
        }
    }
}

/// The file after storing `account` for `handle`.
pub open spec fn with_account(v: FileStorageView, handle: Seq<char>, account: AccountView) -> FileStorageView {
    FileStorageView { accounts: v.accounts.insert(handle, account), default_account: v.default_account }
}

/// The file after deleting `handle`: its account is gone, and it is no
/// longer the default.
pub open spec fn without_account(v: FileStorageView, handle: Seq<char>) -> FileStorageView {
    FileStorageView {
        accounts: v.accounts.remove(handle),
        default_account: if v.default_account == Some(handle) {
            None
        } else {
            v.default_account
        },
    }
}

/// The account view of fresh credentials, with no session.
pub open spec fn fresh_account(c: Credentials) -> AccountView {
    AccountView { identifier: c.identifier@, password: c.password@, service: c.service@, session: None }
}

/// A handle is in the map exactly when an entry has it.
proof fn lemma_accounts_dom(s: Seq<(String, StoredAccount)>, k: Seq<char>)
    ensures
        accounts_map(s).dom().contains(k) <==> exists|j: int| 0 <= j < s.len() && s[j].0@ == k,
    decreases s.len(),
{
    if s.len() > 0 {
        lemma_accounts_dom(s.drop_last(), k);
        if accounts_map(s.drop_last()).dom().contains(k) {
            let j = choose|j: int| 0 <= j < s.drop_last().len() && s.drop_last()[j].0@ == k;
            assert(s[j].0@ == k);
        }
        if exists|j: int| 0 <= j < s.len() && s[j].0@ == k {
            let j = choose|j: int| 0 <= j < s.len() && s[j].0@ == k;
            if j < s.len() - 1 {
                assert(s.drop_last()[j].0@ == k);
            }
        }
    }
}

/// With one entry per handle, an entry's account is the handle's account.
proof fn lemma_accounts_at(s: Seq<(String, StoredAccount)>, i: int)
    requires
        unique_handles(s),
        0 <= i < s.len(),
    ensures
        accounts_map(s).dom().contains(s[i].0@),
        accounts_map(s)[s[i].0@] == s[i].1@,
    decreases s.len(),
{
    if i < s.len() - 1 {
        lemma_accounts_at(s.drop_last(), i);
        assert(s.drop_last()[i] == s[i]);
    }
}

/// Replacing the entry of a handle replaces its account.
proof fn lemma_accounts_update(s: Seq<(String, StoredAccount)>, i: int, e: (String, StoredAccount))
    requires
        unique_handles(s),
        0 <= i < s.len(),
        s[i].0@ == e.0@,
    ensures
        accounts_map(s.update(i, e)) == accounts_map(s).insert(e.0@, e.1@),
        unique_handles(s.update(i, e)),
    decreases s.len(),
{
    let t = s.update(i, e);
    if i == s.len() - 1 {
        assert(t.drop_last() =~= s.drop_last());
        assert(accounts_map(t) =~= accounts_map(s).insert(e.0@, e.1@));
    } else {
        assert(t.drop_last() =~= s.drop_last().update(i, e));
        lemma_accounts_update(s.drop_last(), i, e);
        assert(s.last().0@ != e.0@);
        assert(accounts_map(t) =~= accounts_map(s).insert(e.0@, e.1@));
    }
}

/// Removing the entry of a handle removes its account.
proof fn lemma_accounts_remove(s: Seq<(String, StoredAccount)>, i: int)
    requires
        unique_handles(s),
        0 <= i < s.len(),
    ensures
        accounts_map(s.remove(i)) == accounts_map(s).remove(s[i].0@),
        unique_handles(s.remove(i)),
    decreases s.len(),
{
    let k = s[i].0@;
    let t = s.remove(i);
    if i == s.len() - 1 {
        assert(t =~= s.drop_last());
        lemma_accounts_dom(s.drop_last(), k);
        assert(!accounts_map(s.drop_last()).dom().contains(k));
        assert(accounts_map(t) =~= accounts_map(s).remove(k));
    } else {
        assert(t.drop_last() =~= s.drop_last().remove(i));
        assert(t.last() == s.last());
        lemma_accounts_remove(s.drop_last(), i);
        assert(s.last().0@ != k);
        assert(accounts_map(t) =~= accounts_map(s).remove(k));
    }
    assert forall|a: int, b: int| 0 <= a < b < t.len() implies t[a].0@ != t[b].0@ by {
        let a2 = if a < i { a } else { a + 1 };
        let b2 = if b < i { b } else { b + 1 };
        assert(t[a] == s[a2] && t[b] == s[b2]);
    }
}

impl FileStorage {
    /// Each handle has one entry.
    pub closed spec fn wf(&self) -> bool {
        unique_handles(self.accounts@)
    }

    /// A file with no accounts and no default.
    pub fn empty() -> (f: Self)
        ensures
            f.wf(),
            f@.accounts == Map::<Seq<char>, AccountView>::empty(),
            f@.default_account is None,
    {
        FileStorage { accounts: Vec::new(), default_account: None }
    }

    /// The position of the entry of `handle`.
    fn position(&self, handle: &str) -> (r: Option<usize>)
        requires
            self.wf(),
        ensures
            match r {
                Some(i) => i < self.accounts@.len() && self.accounts@[i as int].0@ == handle@,
                None => !self@.accounts.dom().contains(handle@),
            },
    {
        let mut i: usize = 0;
        while i < self.accounts.len()
            invariant
                i <= self.accounts@.len(),
                forall|j: int| 0 <= j < i ==> self.accounts@[j].0@ != handle@,
            decreases self.accounts@.len() - i,
        {
            if str_eq(self.accounts[i].0.as_str(), handle) {
                return Some(i);
            }
            i = i + 1;
        }
        proof {
            lemma_accounts_dom(self.accounts@, handle@);
        }
        None
    }

    /// Stores `account` for `handle`, in place of any account the handle had.
    pub fn put_account(&mut self, handle: &str, account: StoredAccount)
        requires
            old(self).wf(),
        ensures
            final(self).wf(),
            final(self)@ == with_account(old(self)@, handle@, account@),
    {
        let entry = (owned(handle), account);
        match self.position(handle) {
            Some(i) => {
                proof {
                    lemma_accounts_update(self.accounts@, i as int, entry);
                }
                self.accounts.set(i, entry);
            },
            None => {
                let ghost before = self.accounts@;
                self.accounts.push(entry);
                proof {
                    assert(self.accounts@.drop_last() =~= before);
                    lemma_accounts_dom(before, handle@);
                    assert forall|a: int, b: int| 0 <= a < b < self.accounts@.len() implies
                        self.accounts@[a].0@ != self.accounts@[b].0@ by {
                        if b == before.len() {
                            assert(before[a].0@ != handle@);
                        }
                    }
                }
            },
        }
    }

    /// Stores `credentials` for `handle`, with no session; any account the
    /// handle had is replaced.
    pub fn store_credentials(&mut self, handle: &str, credentials: Credentials)
        requires
            old(self).wf(),
        ensures
            final(self).wf(),
            final(self)@ == with_account(old(self)@, handle@, fresh_account(credentials)),
    {
        self.put_account(handle, StoredAccount { credentials, session: None });
    }

    /// The entries of the file, one per handle.
    pub fn entries(&self) -> (r: &[(String, StoredAccount)])
        requires
            self.wf(),
        ensures
            accounts_map(r@) == self@.accounts,
            unique_handles(r@),
    {
        self.accounts.as_slice()
    }

    /// The credentials stored for `handle`; an unknown handle is an error.
    pub fn get_credentials(&self, handle: &str) -> (r: Result<Credentials, AuthError>)
        requires
            self.wf(),
        ensures
            match self@.accounts.get(handle@) {
                Some(a) => r matches Ok(c) && c.identifier@ == a.identifier && c.password@ == a.password
                    && c.service@ == a.service,
                None => r matches Err(AuthError::AccountNotFound(h)) && h@ == handle@,
            },
    {
        match self.position(handle) {
            Some(i) => {
                proof {
                    lemma_accounts_at(self.accounts@, i as int);
                }
                let c = &self.accounts[i].1.credentials;
                Ok(
                    Credentials::with_service(
                        c.identifier.as_str(),
                        c.password.as_str(),
                        c.service.as_str(),
                    ),
                )
            },
            None => Err(AuthError::AccountNotFound(owned(handle))),
        }
    }

    /// Stores the session text of `handle`; an unknown handle is an error
    /// and changes nothing.
    pub fn store_session(&mut self, handle: &str, session: String) -> (r: Result<(), AuthError>)
        requires
            old(self).wf(),
        ensures
            final(self).wf(),
            match old(self)@.accounts.get(handle@) {
                Some(a) => r is Ok && final(self)@ == with_account(
                    old(self)@,
                    handle@,
                    AccountView { session: Some(session@), ..a },
                ),
                None => (r matches Err(AuthError::AccountNotFound(h)) && h@ == handle@) && final(self)@
                    == old(self)@,
            },
    {
        match self.position(handle) {
            Some(i) => {
                proof {
                    lemma_accounts_at(self.accounts@, i as int);
                }
                let c = &self.accounts[i].1.credentials;
                let credentials = Credentials::with_service(
                    c.identifier.as_str(),
                    c.password.as_str(),
                    c.service.as_str(),
                );
                let entry = (owned(handle), StoredAccount { credentials, session: Some(session) });
                proof {
                    lemma_accounts_update(self.accounts@, i as int, entry);
                    assert(entry.1@ == AccountView { session: Some(session@), ..accounts_map(self.accounts@)[handle@] });
                }
                self.accounts.set(i, entry);
                Ok(())
            },
            None => Err(AuthError::AccountNotFound(owned(handle))),
        }
    }

    /// The session text stored for `handle`, if any.
    pub fn get_session(&self, handle: &str) -> (r: Option<String>)
        requires
            self.wf(),
        ensures
            match self@.accounts.get(handle@) {
                Some(a) => match a.session {
                    Some(t) => r matches Some(s) && s@ == t,
                    None => r is None,
                },
                None => r is None,
            },
    {
        match self.position(handle) {
            Some(i) => {
                proof {
                    lemma_accounts_at(self.accounts@, i as int);
                }
                match &self.accounts[i].1.session {
                    Some(t) => Some(owned(t.as_str())),
                    None => None,
                }
            },
            None => None,
        }
    }

    /// Deletes the account of `handle`, and clears the default when it was
    /// that account. An unknown handle changes only the default.
    pub fn delete_credentials(&mut self, handle: &str)
        requires
            old(self).wf(),
        ensures
            final(self).wf(),
            final(self)@ == without_account(old(self)@, handle@),
    {
        if let Some(i) = self.position(handle) {
            proof {
                lemma_accounts_remove(self.accounts@, i as int);
            }
            let _removed = self.accounts.remove(i);
        } else {
            proof {
                assert(accounts_map(self.accounts@) =~= accounts_map(self.accounts@).remove(handle@));
            }
        }
        let clear = match &self.default_account {
            Some(d) => str_eq(d.as_str(), handle),
            None => false,
        };
        if clear {
            self.default_account = None;
        }
    }

    /// The handles of the stored accounts, each once.
    pub fn list_accounts(&self) -> (r: Vec<String>)
        requires
            self.wf(),
        ensures
            forall|k: Seq<char>| self@.accounts.dom().contains(k) <==> exists|j: int| 0 <= j < r@.len() && r@[j]@ == k,
            forall|a: int, b: int| 0 <= a < b < r@.len() ==> r@[a]@ != r@[b]@,
    {
        let mut out: Vec<String> = Vec::new();
        let mut i: usize = 0;
        while i < self.accounts.len()
            invariant
                i <= self.accounts@.len(),
                out@.len() == i,
                forall|j: int| 0 <= j < i ==> out@[j]@ == self.accounts@[j].0@,
            decreases self.accounts@.len() - i,
        {
            out.push(owned(self.accounts[i].0.as_str()));
            i = i + 1;
        }
        proof {
            assert forall|k: Seq<char>| self@.accounts.dom().contains(k) <==> exists|j: int| 0 <= j < out@.len() && out@[j]@ == k by {
                lemma_accounts_dom(self.accounts@, k);
                if exists|j: int| 0 <= j < out@.len() && out@[j]@ == k {
                    let j = choose|j: int| 0 <= j < out@.len() && out@[j]@ == k;
                    assert(self.accounts@[j].0@ == k);
                }
                if exists|j: int| 0 <= j < self.accounts@.len() && self.accounts@[j].0@ == k {
                    let j = choose|j: int| 0 <= j < self.accounts@.len() && self.accounts@[j].0@ == k;
                    assert(out@[j]@ == k);
                }
            }
        }
        out
    }

    /// The default account.
    pub fn get_default_account(&self) -> (r: Option<String>)
        ensures
            match self@.default_account {
                Some(d) => r matches Some(s) && s@ == d,
                None => r is None,
            },
    {
        match &self.default_account {
            Some(d) => Some(owned(d.as_str())),
            None => None,
        }
    }

    /// Makes `handle` the default account.
    pub fn set_default_account(&mut self, handle: &str)
        requires
            old(self).wf(),
        ensures
            final(self).wf(),
            final(self)@.accounts == old(self)@.accounts,
            final(self)@.default_account == Some(handle@),
    {
        self.default_account = Some(owned(handle));
    }
}

/// The texts of a list of strings.
pub open spec fn handles_view(v: Seq<String>) -> Seq<Seq<char>> {
    v.map_values(|s: String| s@)
}

/// `list` without any occurrence of `handle`.
pub open spec fn list_without(list: Seq<Seq<char>>, handle: Seq<char>) -> Seq<Seq<char>>
    decreases list.len(),
{
    if list.len() == 0 {
        list
    } else {
        let rest = list_without(list.drop_last(), handle);
        if list.last() == handle {
            rest
        } else {
            rest.push(list.last())
        }
    }
}

/// The keyring's account list after adding (`add`) or removing `handle`:
/// an added handle is appended unless it is there already; a removed one
/// leaves every place it held.
pub open spec fn account_list_after(list: Seq<Seq<char>>, handle: Seq<char>, add: bool) -> Seq<Seq<char>> {
    if add {
        if list.contains(handle) {
            list
        } else {
            list.push(handle)
        }
    } else {
        list_without(list, handle)
    }
}

/// The keyring's account list after adding (`add`) or removing `handle`.
pub fn update_account_list(accounts: Vec<String>, handle: &str, add: bool) -> (r: Vec<String>)
    ensures
        handles_view(r@) == account_list_after(handles_view(accounts@), handle@, add),
{
    let ghost list = handles_view(accounts@);
    if add {
        let mut i: usize = 0;
        while i < accounts.len()
            invariant
                add,
                i <= accounts@.len(),
                list == handles_view(accounts@),
                forall|j: int| 0 <= j < i ==> list[j] != handle@,
            decreases accounts@.len() - i,
        {
            if str_eq(accounts[i].as_str(), handle) {
                assert(list[i as int] == handle@);
                assert(list.contains(handle@));
                assert(account_list_after(list, handle@, add) == list);
                return accounts;
            }
            i = i + 1;
        }
        let mut out = accounts;
        out.push(owned(handle));
        assert(handles_view(out@) =~= list.push(handle@));
        out
    } else {
        let mut out: Vec<String> = Vec::new();
        let mut i: usize = 0;
        assert(list.take(0) =~= Seq::<Seq<char>>::empty());
        while i < accounts.len()
            invariant
                i <= accounts@.len(),
                list == handles_view(accounts@),
                handles_view(out@) == list_without(list.take(i as int), handle@),
            decreases accounts@.len() - i,
        {
            assert(list.take(i + 1).drop_last() =~= list.take(i as int));
            if !str_eq(accounts[i].as_str(), handle) {
                out.push(owned(accounts[i].as_str()));
                assert(handles_view(out@) =~= list_without(list.take(i as int), handle@).push(list[i as int]));
            }
            i = i + 1;
        }
        assert(list.take(accounts@.len() as int) =~= list);
        out
    }
}

/// `list_without` leaves no occurrence of the handle and keeps every other
/// entry of the list.
pub proof fn lemma_list_without(list: Seq<Seq<char>>, handle: Seq<char>)
    ensures
        !list_without(list, handle).contains(handle),
        forall|h: Seq<char>| h != handle ==> (list.contains(h) <==> list_without(list, handle).contains(h)),
    decreases list.len(),
{
    if list.len() > 0 {
        lemma_list_without(list.drop_last(), handle);
        let rest = list_without(list.drop_last(), handle);
        assert forall|h: Seq<char>| h != handle implies (list.contains(h) <==> list_without(list, handle).contains(
            h,
        )) by {
            if list.contains(h) {
                let j = choose|j: int| 0 <= j < list.len() && list[j] == h;
                if j < list.len() - 1 {
                    assert(list.drop_last()[j] == h);
                    assert(list.drop_last().contains(h));
                    assert(rest.contains(h));
                    let k = choose|k: int| 0 <= k < rest.len() && rest[k] == h;
                    assert(list_without(list, handle)[k] == h);
                } else {
                    assert(list_without(list, handle).last() == h);
                }
            }
            if list_without(list, handle).contains(h) {
                let j = choose|j: int| 0 <= j < list_without(list, handle).len() && list_without(list, handle)[j] == h;
                if list.last() != handle && j == rest.len() {
                    assert(list[list.len() - 1] == h);
                } else {
                    assert(rest[j] == h);
                    assert(rest.contains(h));
                    assert(list.drop_last().contains(h));
                    let k = choose|k: int| 0 <= k < list.drop_last().len() && list.drop_last()[k] == h;
                    assert(list[k] == h);
                }
            }
        }
        if list_without(list, handle).contains(handle) {
            let j = choose|j: int| 0 <= j < list_without(list, handle).len() && list_without(list, handle)[j] == handle;
            if !(list.last() != handle && j == rest.len()) {
                assert(rest[j] == handle);
            }
        }
    }
}

/// Keyring account list: an added handle is on the list, adding it again
/// changes nothing, and removing it takes it off while every other handle
/// stays as listed.
pub proof fn law_account_list(list: Seq<Seq<char>>, handle: Seq<char>)
    ensures
        account_list_after(list, handle, true).contains(handle),
        account_list_after(account_list_after(list, handle, true), handle, true) == account_list_after(
            list,
            handle,
            true,
        ),
        !account_list_after(list, handle, false).contains(handle),
        forall|h: Seq<char>| h != handle ==> (list.contains(h) <==> account_list_after(list, handle, false).contains(h)),
        forall|h: Seq<char>| h != handle ==> (list.contains(h) <==> account_list_after(list, handle, true).contains(h)),
{
    lemma_list_without(list, handle);
    let added = account_list_after(list, handle, true);
    if !list.contains(handle) {
        assert(added[list.len() as int] == handle);
        assert forall|h: Seq<char>| h != handle implies (list.contains(h) <==> added.contains(h)) by {
            if list.contains(h) {
                let j = choose|j: int| 0 <= j < list.len() && list[j] == h;
                assert(added[j] == h);
            }
            if added.contains(h) {
                let j = choose|j: int| 0 <= j < added.len() && added[j] == h;
                assert(list[j] == h);
            }
        }
    }
}

/// Credentials file: what is stored for a handle is what is read back for
/// it, the other accounts and the default stay as they were; after a
/// deletion the handle has no account and is not the default, and the
/// other accounts stay as they were.
pub proof fn law_file_storage(v: FileStorageView, handle: Seq<char>, account: AccountView)
    ensures
        with_account(v, handle, account).accounts.get(handle) == Some(account),
        with_account(v, handle, account).default_account == v.default_account,
        forall|h: Seq<char>| h != handle ==> with_account(v, handle, account).accounts.get(h) == v.accounts.get(h),
        without_account(v, handle).accounts.get(handle) is None,
        without_account(v, handle).default_account != Some(handle),
        forall|h: Seq<char>| h != handle ==> without_account(v, handle).accounts.get(h) == v.accounts.get(h),
{
}

} // verus!
