//! Stored credentials, accounts and the configuration that lists them.
use vstd::prelude::*;
use std::collections::HashMap;
use std::time::{Duration, SystemTime};
use crate::text::{owned, str_eq};

verus! {

#[verifier::external_type_specification]
#[verifier::external_body]
pub struct ExSystemTime(std::time::SystemTime);

#[verifier::external_type_specification]
#[verifier::external_body]
pub struct ExIoError(std::io::Error);

/// `SystemTime` is `Copy`: its `clone` gives back the same time.
pub assume_specification[ <std::time::SystemTime as std::clone::Clone>::clone ](t: &std::time::SystemTime) -> (r: std::time::SystemTime)
    ensures
        r == *t,
;

/// The current time (`SystemTime::now`); nothing is claimed of it.
#[verifier::external_body]
pub(crate) fn system_now() -> (t: SystemTime) {
    SystemTime::now()
}

/// How long after `earlier` the time `later` comes
/// (`SystemTime::duration_since`); `None` when `later` is the earlier one.
/// Nothing is claimed of the value, which depends on the clock readings.
#[verifier::external_body]
fn time_between(later: &SystemTime, earlier: SystemTime) -> (d: Option<Duration>) {
    later.duration_since(earlier).ok()
}

/// The length of a duration in nanoseconds (`Duration::as_nanos`).
#[verifier::external_body]
fn duration_nanos(d: &Duration) -> (n: u128) {
    d.as_nanos()
}

/// Errors of the authentication layer.
#[derive(Debug)]
pub enum AuthError {
    AccountNotFound(String),
    InvalidCredentials(String),
    KeyringUnavailable(String),
    ConfigError(String),
    NetworkError(String),
    OAuthError(String),
    ParseError(String),
    AuthorizationPending,
    SlowDown,
    ExpiredToken,
    AccessDenied,
    IoError(std::io::Error),
}

/// The message of an authentication error that carries a text or none; an
/// I/O error's message is `IO error: ` followed by the error's own text.
pub open spec fn auth_error_message(e: AuthError) -> Option<Seq<char>> {
    match e {
        AuthError::AccountNotFound(m) => Some("Account not found: "@ + m@),
        AuthError::InvalidCredentials(m) => Some("Invalid credentials: "@ + m@),
        AuthError::KeyringUnavailable(m) => Some("Keyring unavailable: "@ + m@),
        AuthError::ConfigError(m) => Some("Configuration error: "@ + m@),
        AuthError::NetworkError(m) => Some("Network error: "@ + m@),
        AuthError::OAuthError(m) => Some("OAuth error: "@ + m@),
        AuthError::ParseError(m) => Some("Parse error: "@ + m@),
        AuthError::AuthorizationPending => Some("Authorization pending"@),
        AuthError::SlowDown => Some("Slow down polling"@),
        AuthError::ExpiredToken => Some("Token expired"@),
        AuthError::AccessDenied => Some("Access denied"@),
        AuthError::IoError(_) => None,
    }
}

impl AuthError {
    /// The error's message.
    pub fn message(&self) -> (m: String)
        ensures
            auth_error_message(*self) matches Some(t) ==> m@ == t,
            self is IoError ==> crate::strings::has_prefix(m@, "IO error: "@),
    {
        let (label, detail): (&str, Option<&String>) = match self {
            AuthError::AccountNotFound(m) => ("Account not found: ", Some(m)),
            AuthError::InvalidCredentials(m) => ("Invalid credentials: ", Some(m)),
            AuthError::KeyringUnavailable(m) => ("Keyring unavailable: ", Some(m)),
            AuthError::ConfigError(m) => ("Configuration error: ", Some(m)),
            AuthError::NetworkError(m) => ("Network error: ", Some(m)),
            AuthError::OAuthError(m) => ("OAuth error: ", Some(m)),
            AuthError::ParseError(m) => ("Parse error: ", Some(m)),
            AuthError::AuthorizationPending => ("Authorization pending", None),
            AuthError::SlowDown => ("Slow down polling", None),
            AuthError::ExpiredToken => ("Token expired", None),
            AuthError::AccessDenied => ("Access denied", None),
            AuthError::IoError(e) => {
                let mut out = owned("IO error: ");
                let text = crate::error::io_error_text(e);
                crate::text::push_str(&mut out, text.as_str());
                assert(out@.take("IO error: "@.len() as int) =~= "IO error: "@);
                return out;
            },
        };
        let mut out = owned(label);
        if let Some(d) = detail {
            crate::text::push_str(&mut out, d.as_str());
        }
        out
    }
}

/// OAuth tokens held for an account.
#[derive(Debug, Clone)]
pub struct Credentials {
    pub access_token: String,
    pub refresh_token: String,
    pub dpop_key: String,
    pub expires_at: SystemTime,
}

/// Whether tokens that expire `remaining_nanos` nanoseconds from now (`None`
/// when they have already expired) are due for refresh: when less than
/// `threshold_minutes` minutes remain.
pub open spec fn refresh_due(remaining_nanos: Option<u128>, threshold_minutes: u64) -> bool {
    match remaining_nanos {
        None => true,
        Some(n) => n < threshold_minutes * 60 * 1_000_000_000,
    }
}

/// Decides refresh from the time the tokens have left.
pub fn refresh_due_after(remaining_nanos: Option<u128>, threshold_minutes: u64) -> (r: bool)
    requires
        threshold_minutes * 60 <= u64::MAX,
    ensures
        r == refresh_due(remaining_nanos, threshold_minutes),
{
    match remaining_nanos {
        None => true,
        Some(n) => {
            let threshold: u128 = (threshold_minutes as u128) * 60 * 1_000_000_000;
            n < threshold
        },
    }
}

impl Credentials {
    /// Whether the tokens expire within `threshold_minutes` minutes of now
    /// (or already have). The time left is read from the clock, so no clause
    /// fixes the result; the decision on it is `refresh_due_after`'s.
    pub fn needs_refresh(&self, threshold_minutes: u64) -> (r: bool)
        requires
            threshold_minutes * 60 <= u64::MAX,
    {
        let now = system_now();
        let left = match time_between(&self.expires_at, now) {
            Some(d) => Some(duration_nanos(&d)),
            None => None,
        };
        refresh_due_after(left, threshold_minutes)
    }
}

/// An account known to the tool.
#[derive(Debug, Clone)]
pub struct Account {
    pub handle: String,
    pub did: String,
    pub pds: String,
    pub storage_ref: String,
    pub created_at: SystemTime,
    pub last_used: SystemTime,
    pub metadata: HashMap<String, String>,
}

/// Behaviour settings.
#[derive(Debug, Clone)]
pub struct Settings {
    pub auto_refresh: bool,
    pub refresh_threshold_minutes: u64,
    pub token_rotation_days: u64,
}

impl Default for Settings {
    fn default() -> (s: Self)
        ensures
            s.auto_refresh,
            s.refresh_threshold_minutes == 5,
            s.token_rotation_days == 30,
    {
        Settings { auto_refresh: true, refresh_threshold_minutes: 5, token_rotation_days: 30 }
    }
}

/// The stored configuration: accounts and the default one.
#[derive(Debug, Clone)]
pub struct Config {
    pub version: String,
    pub accounts: Vec<Account>,
    pub default_account: Option<String>,
    pub settings: Settings,
}

impl Default for Config {
    fn default() -> (c: Self)
        ensures
            c.version@ == "2.0"@,
            c.accounts@.len() == 0,
            c.default_account is None,
            c.settings.auto_refresh,
            c.settings.refresh_threshold_minutes == 5,
            c.settings.token_rotation_days == 30,
    {
        Config {
            version: owned("2.0"),
            accounts: Vec::new(),
            default_account: None,
            settings: Settings::default(),
        }
    }
}

/// The position of the first account with the given handle.
pub open spec fn handle_index(accounts: Seq<Account>, handle: Seq<char>) -> Option<int>
    decreases accounts.len(),
{
    if accounts.len() == 0 {
        None
    } else {
        match handle_index(accounts.drop_last(), handle) {
            Some(i) => Some(i),
            None => if accounts.last().handle@ == handle {
                Some(accounts.len() - 1)
            } else {
                None
            },
        }
    }
}

/// No two accounts share a handle.
pub open spec fn unique_handles(accounts: Seq<Account>) -> bool {
    forall|i: int, j: int| 0 <= i < j < accounts.len() ==> accounts[i].handle@ != accounts[j].handle@
}

/// The account list after adding `a`: it takes the place of the first
/// account with its handle, or comes last when there is none.
pub open spec fn with_account(accounts: Seq<Account>, a: Account) -> Seq<Account> {
    match handle_index(accounts, a.handle@) {
        Some(i) => accounts.update(i, a),
        None => accounts.push(a),
    }
}

/// The accounts whose handle is not `handle`, in order.
pub open spec fn without_handle(accounts: Seq<Account>, handle: Seq<char>) -> Seq<Account>
    decreases accounts.len(),
{
    if accounts.len() == 0 {
        Seq::empty()
    } else {
        let rest = without_handle(accounts.drop_last(), handle);
        if accounts.last().handle@ == handle {
            rest
        } else {
            rest.push(accounts.last())
        }
    }
}

/// What `handle_index` finds is the first account with the handle.
pub proof fn lemma_handle_index(accounts: Seq<Account>, handle: Seq<char>)
    ensures
        match handle_index(accounts, handle) {
            Some(i) => 0 <= i < accounts.len() && accounts[i].handle@ == handle
                && forall|j: int| 0 <= j < i ==> accounts[j].handle@ != handle,
            None => forall|j: int| 0 <= j < accounts.len() ==> accounts[j].handle@ != handle,
        },
    decreases accounts.len(),
{
    if accounts.len() > 0 {
        let init = accounts.drop_last();
        lemma_handle_index(init, handle);
        assert forall|j: int| 0 <= j < init.len() implies init[j] == accounts[j] by {}
    }
}

/// Removing accounts of a handle shortens the list exactly when one has it.
pub proof fn lemma_without_handle_len(accounts: Seq<Account>, handle: Seq<char>)
    ensures
        without_handle(accounts, handle).len() <= accounts.len(),
        (without_handle(accounts, handle).len() < accounts.len()) == (handle_index(accounts, handle) is Some),
    decreases accounts.len(),
{
    if accounts.len() > 0 {
        lemma_without_handle_len(accounts.drop_last(), handle);
    }
}

impl Config {
    /// The account with the given handle.
    pub fn get_account(&self, handle: &str) -> (r: Option<&Account>)
        ensures
            match handle_index(self.accounts@, handle@) {
                Some(i) => r == Some(&self.accounts@[i]),
                None => r is None,
            },
    {
        match self.account_index(handle) {
            Some(i) => Some(&self.accounts[i]),
            None => None,
        }
    }

    /// The position of the account with the given handle.
    fn account_index(&self, handle: &str) -> (r: Option<usize>)
        ensures
            match r {
                Some(i) => handle_index(self.accounts@, handle@) == Some(i as int) && i < self.accounts@.len(),
                None => handle_index(self.accounts@, handle@) is None,
            },
    {
        proof {
            lemma_handle_index(self.accounts@, handle@);
        }
        let mut i: usize = 0;
        while i < self.accounts.len()
            invariant
                i <= self.accounts@.len(),
                forall|j: int| 0 <= j < i ==> self.accounts@[j].handle@ != handle@,
                match handle_index(self.accounts@, handle@) {
                    Some(k) => 0 <= k < self.accounts@.len() && self.accounts@[k].handle@ == handle@
                        && forall|j: int| 0 <= j < k ==> self.accounts@[j].handle@ != handle@,
                    None => forall|j: int| 0 <= j < self.accounts@.len() ==> self.accounts@[j].handle@ != handle@,
                },
            decreases self.accounts@.len() - i,
        {
            if str_eq(self.accounts[i].handle.as_str(), handle) {
                return Some(i);
            }
            i = i + 1;
        }
        None
    }

    /// The account with the given handle, for changing it.
    pub fn get_account_mut(&mut self, handle: &str) -> (r: Option<&mut Account>)
        ensures
            match handle_index(old(self).accounts@, handle@) {
                Some(i) => (r matches Some(a) && *a == old(self).accounts@[i]
                    && final(self).accounts@ == old(self).accounts@.update(i, *final(a))),
                None => r is None && final(self).accounts@ == old(self).accounts@,
            },
            final(self).version == old(self).version,
            final(self).default_account == old(self).default_account,
            final(self).settings == old(self).settings,
    {
        match self.account_index(handle) {
            Some(i) => Some(&mut self.accounts[i]),
            None => None,
        }
    }

    /// Adds an account, replacing the one with the same handle if there is one.
    pub fn add_account(&mut self, account: Account)
        ensures
            final(self).accounts@ == with_account(old(self).accounts@, account),
            final(self).version == old(self).version,
            final(self).default_account == old(self).default_account,
            final(self).settings == old(self).settings,
    {
        match self.account_index(account.handle.as_str()) {
            Some(i) => {
                self.accounts[i] = account;
            },
            None => {
                self.accounts.push(account);
            },
        }
    }

    /// Removes every account with the given handle; whether any was removed.
    pub fn remove_account(&mut self, handle: &str) -> (r: bool)
        ensures
            final(self).accounts@ == without_handle(old(self).accounts@, handle@),
            r == (handle_index(old(self).accounts@, handle@) is Some),
            final(self).version == old(self).version,
            final(self).default_account == old(self).default_account,
            final(self).settings == old(self).settings,
    {
        proof {
            lemma_without_handle_len(self.accounts@, handle@);
        }
        let initial_len = self.accounts.len();
        let ghost orig = old(self).accounts@;
        let mut i: usize = 0;
        let ghost mut k: int = 0;
        assert(orig.skip(0) =~= orig);
        assert(orig.take(0) =~= Seq::<Account>::empty());
        while i < self.accounts.len()
            invariant
                0 <= k <= orig.len(),
                orig == old(self).accounts@,
                i == without_handle(orig.take(k), handle@).len(),
                self.accounts@ == without_handle(orig.take(k), handle@) + orig.skip(k),
                self.version == old(self).version,
                self.default_account == old(self).default_account,
                self.settings == old(self).settings,
            decreases orig.len() - k,
        {
            assert(orig.take(k + 1).drop_last() =~= orig.take(k));
            assert(self.accounts@[i as int] == orig[k]);
            if str_eq(self.accounts[i].handle.as_str(), handle) {
                let _removed = self.accounts.remove(i);
                proof {
                    assert(self.accounts@ =~= without_handle(orig.take(k + 1), handle@) + orig.skip(k + 1));
                }
            } else {
                i = i + 1;
                proof {
                    assert(self.accounts@ =~= without_handle(orig.take(k + 1), handle@) + orig.skip(k + 1));
                }
            }
            proof {
                k = k + 1;
            }
        }
        assert(k == orig.len()) by {
            if k < orig.len() {
                assert(self.accounts@.len() > i);
            }
        }
        assert(orig.take(k) =~= orig);
        assert(orig.skip(k) =~= Seq::<Account>::empty());
        assert(self.accounts@ =~= without_handle(orig, handle@));
        self.accounts.len() < initial_len
    }

    /// Marks the account with the given handle as used now.
    pub fn update_last_used(&mut self, handle: &str)
        ensures
            match handle_index(old(self).accounts@, handle@) {
                Some(i) => final(self).accounts@.len() == old(self).accounts@.len()
                    && (forall|j: int| 0 <= j < old(self).accounts@.len() && j != i
                        ==> final(self).accounts@[j] == old(self).accounts@[j])
                    && ({
                        let (a, b) = (final(self).accounts@[i], old(self).accounts@[i]);
                        a.handle == b.handle && a.did == b.did && a.pds == b.pds
                            && a.storage_ref == b.storage_ref && a.created_at == b.created_at
                            && a.metadata == b.metadata
                    }),
                None => final(self).accounts@ == old(self).accounts@,
            },
            final(self).version == old(self).version,
            final(self).default_account == old(self).default_account,
            final(self).settings == old(self).settings,
    {
        proof {
            lemma_handle_index(self.accounts@, handle@);
        }
        if let Some(account) = self.get_account_mut(handle) {
            account.last_used = system_now();
        }
    }
}

/// After an account is added, looking up its handle finds that account.
pub proof fn law_added_account_is_found(accounts: Seq<Account>, a: Account)
    ensures
        handle_index(with_account(accounts, a), a.handle@) matches Some(j) && with_account(accounts, a)[j] == a,
{
    lemma_handle_index(accounts, a.handle@);
    let after = with_account(accounts, a);
    lemma_handle_index(after, a.handle@);
    match handle_index(accounts, a.handle@) {
        Some(i) => {
            assert(after[i].handle@ == a.handle@);
        },
        None => {
            assert(after[accounts.len() as int].handle@ == a.handle@);
        },
    }
}

/// Adding an account never gives two accounts the same handle.
pub proof fn law_add_keeps_handles_unique(accounts: Seq<Account>, a: Account)
    requires
        unique_handles(accounts),
    ensures
        unique_handles(with_account(accounts, a)),
{
    lemma_handle_index(accounts, a.handle@);
    let after = with_account(accounts, a);
    assert forall|i: int, j: int| 0 <= i < j < after.len() implies after[i].handle@ != after[j].handle@ by {
        match handle_index(accounts, a.handle@) {
            Some(k) => {
                if i == k {
                    assert(accounts[j].handle@ != accounts[k].handle@);
                } else if j == k {
                    assert(accounts[i].handle@ != accounts[k].handle@);
                }
            },
            None => {},
        }
    }
}

/// After an account is removed, no account has its handle.
pub proof fn law_removed_handle_is_gone(accounts: Seq<Account>, handle: Seq<char>)
    ensures
        handle_index(without_handle(accounts, handle), handle) is None,
    decreases accounts.len(),
{
    if accounts.len() > 0 {
        law_removed_handle_is_gone(accounts.drop_last(), handle);
        let rest = without_handle(accounts.drop_last(), handle);
        if accounts.last().handle@ != handle {
            assert(rest.push(accounts.last()).drop_last() =~= rest);
        }
    }
}

/// Removing a handle that no account has leaves the list as it was.
pub proof fn law_remove_absent_is_noop(accounts: Seq<Account>, handle: Seq<char>)
    requires
        handle_index(accounts, handle) is None,
    ensures
        without_handle(accounts, handle) == accounts,
    decreases accounts.len(),
{
    if accounts.len() > 0 {
        law_remove_absent_is_noop(accounts.drop_last(), handle);
        assert(accounts.drop_last().push(accounts.last()) =~= accounts);
    }
}

/// Removing a handle right after adding an account with it gives what
/// removing it alone gives: the addition is undone.
pub proof fn law_remove_undoes_add(accounts: Seq<Account>, a: Account)
    ensures
        without_handle(with_account(accounts, a), a.handle@) == without_handle(accounts, a.handle@),
{
    lemma_without_update(accounts, a, a.handle@);
}

/// Replacing or appending an account with handle `h` is invisible once `h`
/// is removed.
proof fn lemma_without_update(accounts: Seq<Account>, a: Account, h: Seq<char>)
    requires
        a.handle@ == h,
    ensures
        without_handle(with_account(accounts, a), h) == without_handle(accounts, h),
    decreases accounts.len(),
{
    lemma_handle_index(accounts, h);
    match handle_index(accounts, h) {
        None => {
            let after = accounts.push(a);
            assert(after.drop_last() =~= accounts);
        },
        Some(i) => {
            lemma_without_set(accounts, i, a, h);
        },
    }
}

/// Overwriting, with an account of handle `h`, a position that already holds
/// handle `h` does not change what remains once `h` is removed.
proof fn lemma_without_set(accounts: Seq<Account>, i: int, a: Account, h: Seq<char>)
    requires
        0 <= i < accounts.len(),
        accounts[i].handle@ == h,
        a.handle@ == h,
    ensures
        without_handle(accounts.update(i, a), h) == without_handle(accounts, h),
    decreases accounts.len(),
{
    let after = accounts.update(i, a);
    if i == accounts.len() - 1 {
        assert(after.drop_last() =~= accounts.drop_last());
    } else {
        lemma_without_set(accounts.drop_last(), i, a, h);
        assert(after.drop_last() =~= accounts.drop_last().update(i, a));
        assert(after.last() == accounts.last());
    }
}

} // verus!
