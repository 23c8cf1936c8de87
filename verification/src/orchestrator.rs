//! Who is synchronized when: the guard that keeps an account from being
//! synchronized twice at once, the plan of a pass over the accounts, and
//! what is tried again.

use crate::auth::{get_access_token, token_plan, AuthError, Provider, ProviderEntry, RefreshPlan};
use crate::error::{DEmailError, ErrorKind, ErrorModel};
use crate::models::{opt_text, Account, OAuthProviderConfig};

use vstd::prelude::*;

verus! {

/// The seconds between two passes in the background: five minutes.
pub const SYNC_INTERVAL_SECS: u64 = 300;

/// The most often that a synchronization is tried.
pub const MAX_ATTEMPTS: u32 = 5;

/// The longest wait between two tries, in seconds.
pub const MAX_DELAY_SECS: u64 = 60;

/// The accounts that are being synchronized.
pub struct SyncGuard {
    active: Vec<i64>,
}

impl View for SyncGuard {
    type V = Set<i64>;

    closed spec fn view(&self) -> Set<i64> {
        self.active@.to_set()
    }
}

impl SyncGuard {
    /// No account is being synchronized.
    pub fn new() -> (g: SyncGuard)
        ensures
            g@ == Set::<i64>::empty(),
    {
        let g = SyncGuard { active: Vec::new() };
        proof {
            assert(g@ =~= Set::<i64>::empty());
        }
        g
    }

    /// Whether the account is being synchronized.
    pub fn is_active(&self, account_id: i64) -> (r: bool)
        ensures
            r == self@.contains(account_id),
    {
        let mut i: usize = 0;
        while i < self.active.len()
            invariant
                i <= self.active.len(),
                forall|j: int| 0 <= j < i ==> self.active@[j] != account_id,
            decreases self.active.len() - i,
        {
            if self.active[i] == account_id {
                return true;
            }
            i += 1;
        }
        false
    }

    /// Begins the synchronization of an account, unless one is under way:
    /// returns whether it may begin, and then counts the account among
    /// those that are being synchronized.
    pub fn try_begin(&mut self, account_id: i64) -> (r: bool)
        ensures
            r == !old(self)@.contains(account_id),
            final(self)@ == old(self)@.insert(account_id),
    {
        if self.is_active(account_id) {
            proof {
                assert(self@.insert(account_id) =~= self@);
            }
            return false;
        }
        let ghost before = self.active@;
        self.active.push(account_id);
        proof {
            before.lemma_push_to_set_commute(account_id);
        }
        true
    }

    /// Ends the synchronization of an account.
    pub fn finish(&mut self, account_id: i64)
        ensures
            final(self)@ == old(self)@.remove(account_id),
    {
        let mut left: Vec<i64> = Vec::new();
        let mut i: usize = 0;
        proof {
            assert(self.active@.take(0).to_set() =~= Set::<i64>::empty());
            assert(left@.to_set() =~= self.active@.take(0).to_set().remove(account_id));
        }
        while i < self.active.len()
            invariant
                i <= self.active.len(),
                left@.to_set() == self.active@.take(i as int).to_set().remove(account_id),
            decreases self.active.len() - i,
        {
            let x = self.active[i];
            let ghost seen = self.active@.take(i as int);
            proof {
                assert(self.active@.take(i + 1) =~= seen.push(x));
                seen.lemma_push_to_set_commute(x);
            }
            if x != account_id {
                let ghost prior = left@;
                left.push(x);
                proof {
                    prior.lemma_push_to_set_commute(x);
                    assert(left@.to_set() =~= seen.push(x).to_set().remove(account_id));
                }
            } else {
                proof {
                    assert(left@.to_set() =~= seen.push(x).to_set().remove(account_id));
                }
            }
            i += 1;
        }
        proof {
            assert(self.active@.take(self.active.len() as int) =~= self.active@);
        }
        self.active = left;
    }
}

/// No two synchronizations of one account run at once: while one is under
/// way, another may not begin; once it has ended, it may.
pub proof fn law_one_sync_per_account(active: Set<i64>, account_id: i64)
    ensures
        active.insert(account_id).contains(account_id),
        !active.insert(account_id).remove(account_id).contains(account_id),
        forall|other: i64|
            other != account_id ==> (active.insert(account_id).contains(other) <==> active.contains(
                other,
            )),
{
}

/// What is needed to synchronize an account.
#[derive(Debug)]
pub struct SyncPlan {
    pub account_id: i64,
    pub user_email: String,
    pub refresh: RefreshPlan,
}

/// Decides how an account is synchronized, given the refresh token that is
/// stored for it: the provider and its servers follow from the provider tag
/// of the account, the credentials from the configuration. Fails as
/// [`get_access_token`] does.
pub fn plan_account(
    account: &Account,
    stored_refresh_token: Option<String>,
    configs: &Vec<ProviderEntry>,
) -> (r: Result<SyncPlan, AuthError>)
    ensures
        match r {
            Ok(plan) => {
                &&& token_plan(
                    account.provider_type@,
                    opt_text(stored_refresh_token),
                    configs@,
                ) matches Ok((p, c, t))
                &&& plan.account_id == account.id
                &&& plan.user_email@ == account.email_address@
                &&& plan.refresh.client.provider == p
                &&& plan.refresh.client.client_id == c.client_id
                &&& plan.refresh.client.client_secret == c.client_secret
                &&& plan.refresh.refresh_token@ == t
            },
            Err(e) => token_plan(
                account.provider_type@,
                opt_text(stored_refresh_token),
                configs@,
            ) == Err::<(Provider, OAuthProviderConfig, Seq<char>), ErrorModel>(e.reported()),
        },
{
    match get_access_token(account.provider_type.as_str(), stored_refresh_token, configs) {
        Ok(refresh) => Ok(
            SyncPlan {
                account_id: account.id,
                user_email: account.email_address.clone(),
                refresh,
            },
        ),
        Err(e) => Err(e),
    }
}

/// What came of the synchronization of one account.
#[derive(Debug)]
pub enum AccountOutcome {
    /// The account was synchronized.
    Synced,
    /// A synchronization of the account was under way.
    Busy,
    /// The synchronization failed.
    Failed(DEmailError),
}

/// The model of an [`AccountOutcome`].
pub enum AccountOutcomeModel {
    Synced,
    Busy,
    Failed(ErrorModel),
}

impl View for AccountOutcome {
    type V = AccountOutcomeModel;

    open spec fn view(&self) -> AccountOutcomeModel {
        match self {
            AccountOutcome::Synced => AccountOutcomeModel::Synced,
            AccountOutcome::Busy => AccountOutcomeModel::Busy,
            AccountOutcome::Failed(e) => AccountOutcomeModel::Failed(e@),
        }
    }
}

/// The entries of a report whose account was synchronized.
pub open spec fn was_synced() -> spec_fn((i64, AccountOutcomeModel)) -> bool {
    |e: (i64, AccountOutcomeModel)| e.1 is Synced
}

/// The entries of a report whose account failed.
pub open spec fn has_failed() -> spec_fn((i64, AccountOutcomeModel)) -> bool {
    |e: (i64, AccountOutcomeModel)| e.1 is Failed
}

/// The models of the entries that a vector holds.
pub open spec fn entry_models(v: Seq<(i64, AccountOutcome)>) -> Seq<(i64, AccountOutcomeModel)> {
    v.map_values(|e: (i64, AccountOutcome)| (e.0, e.1@))
}

/// What came of a pass over the accounts: for each account that was
/// attempted, in order, what came of it.
pub struct SyncReport {
    entries: Vec<(i64, AccountOutcome)>,
    synced: usize,
    failed: usize,
}

impl View for SyncReport {
    type V = Seq<(i64, AccountOutcomeModel)>;

    closed spec fn view(&self) -> Seq<(i64, AccountOutcomeModel)> {
        entry_models(self.entries@)
    }
}

impl SyncReport {
    /// The counts that the report keeps are those of its entries.
    pub closed spec fn wf(&self) -> bool {
        &&& self.synced == self@.filter(was_synced()).len()
        &&& self.failed == self@.filter(has_failed()).len()
    }

    /// The report of a pass that has not begun.
    pub fn new() -> (r: SyncReport)
        ensures
            r.wf(),
            r@.len() == 0,
    {
        let r = SyncReport { entries: Vec::new(), synced: 0, failed: 0 };
        proof {
            reveal(Seq::filter);
            assert(r@ =~= Seq::empty());
        }
        r
    }

    /// Records what came of an account. A failure is recorded and does not
    /// end the pass: the accounts that follow are still attempted.
    pub fn record(&mut self, account_id: i64, outcome: AccountOutcome)
        requires
            old(self).wf(),
        ensures
            final(self).wf(),
            final(self)@ == old(self)@.push((account_id, outcome@)),
    {
        let synced = match &outcome {
            AccountOutcome::Synced => true,
            _ => false,
        };
        let failed = match &outcome {
            AccountOutcome::Failed(_) => true,
            _ => false,
        };
        let ghost before = self@;
        let ghost entry = (account_id, outcome@);
        self.entries.push((account_id, outcome));
        proof {
            assert(self@ =~= before.push(entry));
            before.lemma_filter_push(entry, was_synced());
            before.lemma_filter_push(entry, has_failed());
            before.push(entry).lemma_filter_len(was_synced());
            before.push(entry).lemma_filter_len(has_failed());
        }
        // the counts are at most the number of entries
        let attempted: usize = self.entries.len();
        assert(self.synced < attempted && self.failed < attempted);
        if synced {
            self.synced = self.synced + 1;
        }
        if failed {
            self.failed = self.failed + 1;
        }
    }

    /// How many accounts were attempted.
    pub fn attempted(&self) -> (n: usize)
        ensures
            n == self@.len(),
    {
        self.entries.len()
    }

    /// How many accounts were synchronized.
    pub fn synced(&self) -> (n: usize)
        requires
            self.wf(),
        ensures
            n == self@.filter(was_synced()).len(),
    {
        self.synced
    }

    /// How many accounts failed.
    pub fn failed(&self) -> (n: usize)
        requires
            self.wf(),
        ensures
            n == self@.filter(has_failed()).len(),
    {
        self.failed
    }

    /// What came of each account, in order.
    pub fn into_entries(self) -> (r: Vec<(i64, AccountOutcome)>)
        ensures
            entry_models(r@) == self@,
    {
        self.entries
    }
}

/// The seconds to wait before try number `attempt + 1`, after `attempt`
/// tries failed: one second after the first, then twice as long each time,
/// a minute at most.
pub open spec fn backoff(attempt: u32) -> u64
    decreases attempt,
{
    if attempt <= 1 {
        1
    } else if backoff((attempt - 1) as u32) >= 30 {
        MAX_DELAY_SECS
    } else {
        (2 * backoff((attempt - 1) as u32)) as u64
    }
}

/// Whether, and after how many seconds, a synchronization is tried again
/// after `attempt` tries failed, the last one with an error that is
/// permanent or not. A permanent error, such as consent that was revoked,
/// ends the tries at once; any other is tried again until
/// [`MAX_ATTEMPTS`] tries were made.
pub open spec fn retry_after(attempt: u32, permanent: bool) -> Option<u64> {
    if permanent || attempt == 0 || attempt >= MAX_ATTEMPTS {
        None
    } else {
        Some(backoff(attempt))
    }
}

/// The wait is between a second and a minute.
pub proof fn lemma_backoff_bounds(attempt: u32)
    ensures
        1 <= backoff(attempt) <= MAX_DELAY_SECS,
    decreases attempt,
{
    if attempt > 1 {
        lemma_backoff_bounds((attempt - 1) as u32);
    }
}

/// Whether, and after how many seconds, a synchronization is tried again.
pub fn next_retry(attempt: u32, permanent: bool) -> (r: Option<u64>)
    ensures
        r == retry_after(attempt, permanent),
        r matches Some(d) ==> 1 <= d <= MAX_DELAY_SECS,
{
    if permanent || attempt == 0 || attempt >= MAX_ATTEMPTS {
        return None;
    }
    let mut delay: u64 = 1;
    let mut k: u32 = 1;
    while k < attempt
        invariant
            1 <= k <= attempt,
            delay == backoff(k),
            1 <= delay <= MAX_DELAY_SECS,
        decreases attempt - k,
    {
        k += 1;
        if delay >= 30 {
            delay = MAX_DELAY_SECS;
        } else {
            delay = 2 * delay;
        }
    }
    Some(delay)
}

/// A pass over the accounts: how many there are, the index of the one that
/// is attempted next, and what came of those before it.
pub struct SyncPass {
    pub accounts: usize,
    pub next: usize,
    pub report: SyncReport,
}

impl SyncPass {
    /// The report is well formed and has one entry for each account before
    /// the next, of which there are no more than accounts.
    pub open spec fn wf(&self) -> bool {
        &&& self.report.wf()
        &&& self.next <= self.accounts
        &&& self.report@.len() == self.next
    }

    /// A pass over `accounts` accounts that has not begun.
    pub fn new(accounts: usize) -> (p: SyncPass)
        ensures
            p.wf(),
            p.accounts == accounts,
            p.next == 0,
            p.report@.len() == 0,
    {
        SyncPass { accounts, next: 0, report: SyncReport::new() }
    }

    /// Records what came of the account that was attempted, and says which
    /// account is attempted next: the one after it, whatever came of it, or
    /// none after the last. A failure does not end the pass.
    pub fn record(&mut self, account_id: i64, outcome: AccountOutcome) -> (r: Option<usize>)
        requires
            old(self).wf(),
            old(self).next < old(self).accounts,
        ensures
            final(self).wf(),
            final(self).accounts == old(self).accounts,
            final(self).report@ == old(self).report@.push((account_id, outcome@)),
            final(self).next == old(self).next + 1,
            r == (if old(self).next + 1 < old(self).accounts {
                Some((old(self).next + 1) as usize)
            } else {
                None::<usize>
            }),
    {
        self.report.record(account_id, outcome);
        self.next = self.next + 1;
        if self.next < self.accounts {
            Some(self.next)
        } else {
            None
        }
    }
}

/// Whether a failure of this kind is permanent: trying again cannot help,
/// because only the user or the configuration can change what it says. What
/// the network, a server, a file or the database reports may pass and is
/// tried again.
pub open spec fn permanent_kind(kind: ErrorKind) -> bool {
    !(kind == ErrorKind::Imap || kind == ErrorKind::Smtp || kind == ErrorKind::OAuth || kind
        == ErrorKind::Io || kind == ErrorKind::Database || kind == ErrorKind::Unknown)
}

/// A failed try to synchronize an account, with whether it is permanent.
#[derive(Debug)]
pub struct SyncFailure {
    pub error: DEmailError,
    pub permanent: bool,
}

impl SyncFailure {
    /// The failure of planning the synchronization: it is permanent unless
    /// the exchange with the provider failed.
    pub fn of_plan(e: AuthError) -> (f: SyncFailure)
        ensures
            f.error@ == e.reported(),
            f.permanent == e.permanent(),
    {
        let permanent = e.is_permanent();
        SyncFailure { error: e.into_error(), permanent }
    }

    /// The failure of a step of the synchronization: it is permanent where
    /// its kind is.
    pub fn of_error(e: DEmailError) -> (f: SyncFailure)
        ensures
            f.error == e,
            f.permanent == permanent_kind(e@.kind),
    {
        let permanent = match e.kind() {
            ErrorKind::Imap | ErrorKind::Smtp | ErrorKind::OAuth | ErrorKind::Io
            | ErrorKind::Database | ErrorKind::Unknown => false,
            _ => true,
        };
        SyncFailure { error: e, permanent }
    }

    /// Whether, and after how many seconds, the synchronization is tried
    /// again after `attempt` tries, of which this failure was the last.
    pub fn retry(&self, attempt: u32) -> (r: Option<u64>)
        ensures
            r == retry_after(attempt, self.permanent),
    {
        next_retry(attempt, self.permanent)
    }
}

} // verus!
