//! Drafts, as the editor asks for them.

use crate::cache::{
    delete_draft, draft_models, draft_of, get_drafts, last_changed_first, other_draft, save_draft,
    CacheModel, CacheStore,
};
use crate::error::{DEmailError, ErrorKind};
use crate::models::Draft;
use crate::ranking::arranged;
use crate::table::retained;
use vstd::prelude::*;

verus! {

/// Saves a draft at `now`: a draft with the identifier 0 is added, any
/// other is edited. Returns the identifier of the draft.
pub fn create_or_update_draft(store: &mut CacheStore, draft: &Draft, now: i64) -> (r: Result<
    i64,
    DEmailError,
>)
    requires
        old(store).wf(),
    ensures
        final(store).wf(),
        final(store)@ == old(store)@.with_draft(draft@, now).0,
        match r {
            Ok(id) => old(store)@.with_draft(draft@, now).1 == Some(id),
            Err(e) => old(store)@.with_draft(draft@, now).1 is None && e@.kind
                == ErrorKind::Database,
        },
{
    save_draft(store, draft, now)
}

/// Saves a draft that the editor holds, at `now`, without being asked to.
pub fn auto_save_draft(store: &mut CacheStore, draft: &Draft, now: i64) -> (r: Result<
    i64,
    DEmailError,
>)
    requires
        old(store).wf(),
    ensures
        final(store).wf(),
        final(store)@ == old(store)@.with_draft(draft@, now).0,
        match r {
            Ok(id) => old(store)@.with_draft(draft@, now).1 == Some(id),
            Err(e) => old(store)@.with_draft(draft@, now).1 is None && e@.kind
                == ErrorKind::Database,
        },
{
    save_draft(store, draft, now)
}

/// The drafts of the account `account_id`, the one that was changed last
/// first.
pub fn load_drafts_for_account(store: &CacheStore, account_id: i64) -> (r: Result<
    Vec<Draft>,
    DEmailError,
>)
    ensures
        r matches Ok(v) && draft_models(v@) == arranged(
            store@.drafts,
            draft_of(account_id),
            last_changed_first(),
            -1,
            0,
        ).map_values(|i: int| store@.drafts[i]),
{
    get_drafts(store, account_id)
}

/// Deletes the draft `draft_id`.
pub fn remove_draft(store: &mut CacheStore, draft_id: i64) -> (r: Result<(), DEmailError>)
    requires
        old(store).wf(),
    ensures
        final(store).wf(),
        r is Ok,
        final(store)@ == (CacheModel {
            drafts: retained(old(store)@.drafts, other_draft(draft_id)),
            ..old(store)@
        }),
{
    delete_draft(store, draft_id)
}

} // verus!
