//! The command that removes a user's pinned token for the host of a link.
use vstd::prelude::*;
use crate::hasher::{derive_key, preference_key};
use crate::registry::PreferenceRegistry;
use crate::weburl::{parse_url, parsed_host};

verus! {

/// The reply to the delete command.
#[derive(PartialEq, Eq, Structural, Clone, Copy, Debug)]
pub enum DeleteReply {
    /// A pinned token was removed.
    Deleted,
    /// Nothing was pinned under the key.
    NotFound,
    /// No link with a host was given, or no user: no reply.
    Ignored,
}

/// Removes what is pinned under `key`.
pub fn delete_with_key(prefs: &mut PreferenceRegistry, key: &String) -> (r: DeleteReply)
    requires
        old(prefs).wf(),
    ensures
        final(prefs).wf(),
        final(prefs)@ == old(prefs)@.remove(key@),
        r == (if old(prefs)@.contains_key(key@) {
            DeleteReply::Deleted
        } else {
            DeleteReply::NotFound
        }),
{
    match prefs.delete(key) {
        Some(_) => DeleteReply::Deleted,
        None => DeleteReply::NotFound,
    }
}

/// Runs the delete command of `user` with argument `arg`, a link whose host
/// names the pinned token to remove.
pub fn delete_default(prefs: &mut PreferenceRegistry, arg: Option<&str>, user: Option<i64>) -> (r: DeleteReply)
    requires
        old(prefs).wf(),
    ensures
        final(prefs).wf(),
        match (arg, user) {
            (Some(a), Some(id)) => match parsed_host(a@) {
                Some(h) => {
                    let k = preference_key(id as int, h);
                    &&& final(prefs)@ == old(prefs)@.remove(k)
                    &&& r == (if old(prefs)@.contains_key(k) {
                        DeleteReply::Deleted
                    } else {
                        DeleteReply::NotFound
                    })
                },
                None => r == DeleteReply::Ignored && final(prefs)@ == old(prefs)@,
            },
            _ => r == DeleteReply::Ignored && final(prefs)@ == old(prefs)@,
        },
{
    let a = match arg {
        Some(a) => a,
        None => return DeleteReply::Ignored,
    };
    let u = match parse_url(a) {
        Some(u) => u,
        None => return DeleteReply::Ignored,
    };
    let host = match &u.host {
        Some(h) => h,
        None => return DeleteReply::Ignored,
    };
    match derive_key(user, host.as_str()) {
        Some(k) => delete_with_key(prefs, &k),
        None => DeleteReply::Ignored,
    }
}

} // verus!
