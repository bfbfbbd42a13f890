//! How a component of the extension comes to be installed.

use crate::extension::config::CheckUpdates;
use crate::extension::config;
use crate::extension::util;
use crate::json::Json;
use crate::lsp_proxy::requests;
use crate::text;
use vstd::prelude::*;

verus! {

/// What to do next to have a component.
pub enum InstallStep {
    /// Use the component at this path.
    Use(String),
    /// Give up.
    Fail(String),
    /// Look for the latest version.
    FetchVersion,
    /// Download the version; where `record` holds, note afterwards that it was looked for.
    Download { version: String, record: bool },
}

/// What to do first to have a component: to use the one that the settings name (`configured`), or
/// the installed one (`local`), or else to download the version that was found not long ago
/// (`cached`), where newer versions are always looked for, or to look for one.
pub fn first_step(
    configuration: &Option<Json>,
    configured: Option<String>,
    local: Option<String>,
    component_name: &str,
    checked_once: bool,
    cached: Option<String>,
) -> (r: InstallStep)
    ensures
        (match configured {
            Some(path) => r == InstallStep::Use(path),
            None => match util::policy(
                requests::optional(*configuration),
                local,
                component_name@,
                checked_once,
            ) {
                Ok(Some(path)) => r == InstallStep::Use(path),
                Ok(None) => match (
                    config::check_updates(requests::optional(*configuration)),
                    cached,
                ) {
                    (CheckUpdates::Always, Some(version)) => r == (InstallStep::Download {
                        version,
                        record: false,
                    }),
                    _ => r is FetchVersion,
                },
                Err(error) => (r matches InstallStep::Fail(reason) && reason@ == error),
            },
        }),
{
    if let Some(path) = configured {
        return InstallStep::Use(path);
    }
    match util::should_use_local_or_download(configuration, local, component_name, checked_once) {
        Ok(Some(path)) => InstallStep::Use(path),
        Ok(None) => version_for_download(configuration, cached),
        Err(error) => InstallStep::Fail(error),
    }
}

/// What to do for a version to download: to take the one that was found not long ago (`cached`),
/// where newer versions are always looked for, or to look for one.
pub fn version_for_download(configuration: &Option<Json>, cached: Option<String>) -> (r: InstallStep)
    ensures
        match (config::check_updates(requests::optional(*configuration)), cached) {
            (CheckUpdates::Always, Some(version)) => r == (InstallStep::Download {
                version,
                record: false,
            }),
            _ => r is FetchVersion,
        },
{
    if let CheckUpdates::Always = config::get_check_updates(configuration) {
        if let Some(version) = cached {
            return InstallStep::Download { version, record: false };
        }
    }
    InstallStep::FetchVersion
}

/// What to do once the latest version was looked for: to download it, or to use what is installed
/// where that failed.
pub fn after_fetch(fetched: Result<String, String>, local: Option<String>) -> (r: InstallStep)
    ensures
        r == match fetched {
            Ok(version) => InstallStep::Download { version, record: true },
            Err(error) => match local {
                Some(path) => InstallStep::Use(path),
                None => InstallStep::Fail(error),
            },
        },
{
    match fetched {
        Ok(version) => InstallStep::Download { version, record: true },
        Err(error) => fall_back(error, local),
    }
}

/// What to do once the version `version` was downloaded: to use it, or what is installed where that
/// failed, and the version that was looked for, where that is to be noted (`record`).
pub fn after_download(
    downloaded: Result<String, String>,
    version: String,
    record: bool,
    local: Option<String>,
) -> (r: (InstallStep, Option<String>))
    ensures
        r.0 == match downloaded {
            Ok(path) => InstallStep::Use(path),
            Err(error) => match local {
                Some(path) => InstallStep::Use(path),
                None => InstallStep::Fail(error),
            },
        },
        r.1 == if downloaded is Ok && record {
            Some(version)
        } else {
            None
        },
{
    match downloaded {
        Ok(path) => (
            InstallStep::Use(path),
            if record {
                Some(version)
            } else {
                None
            },
        ),
        Err(error) => (fall_back(error, local), None),
    }
}

/// What is installed is better than nothing.
fn fall_back(error: String, local: Option<String>) -> (r: InstallStep)
    ensures
        r == match local {
            Some(path) => InstallStep::Use(path),
            None => InstallStep::Fail(error),
        },
{
    match local {
        Some(path) => InstallStep::Use(path),
        None => InstallStep::Fail(error),
    }
}

/// The place of the newest of the candidates, the last of those that are equally new; those whose
/// age is not known do not count. `n` is how many are looked at.
pub open spec fn newest_index(created: Seq<Option<i128>>, n: int) -> Option<int>
    decreases n,
{
    if n <= 0 || n > created.len() {
        None
    } else {
        let earlier = newest_index(created, n - 1);
        match (created[n - 1], earlier) {
            (None, _) => earlier,
            (Some(_), None) => Some(n - 1),
            (Some(time), Some(best)) => if time >= created[best]->Some_0 {
                Some(n - 1)
            } else {
                earlier
            },
        }
    }
}

/// The newest candidate is at least as new as any other.
pub proof fn lemma_newest(created: Seq<Option<i128>>, n: int)
    requires
        0 <= n <= created.len(),
    ensures
        (match newest_index(created, n) {
            Some(best) => 0 <= best < n && created[best] is Some && forall|i: int|
                0 <= i < n && (#[trigger] created[i]) is Some ==> created[i]->Some_0
                    <= created[best]->Some_0,
            None => forall|i: int| 0 <= i < n ==> (#[trigger] created[i]) is None,
        }),
    decreases n,
{
    if n > 0 {
        lemma_newest(created, n - 1);
    }
}

/// When the candidates were made.
pub open spec fn creation_times(candidates: Seq<(String, Option<i128>)>) -> Seq<Option<i128>> {
    Seq::new(candidates.len(), |i: int| candidates[i].1)
}

/// The newest of the candidates, given when they were made; the last of those that are equally new.
pub fn newest(candidates: &Vec<(String, Option<i128>)>) -> (r: Option<String>)
    ensures
        text::optional(r) == match newest_index(
            creation_times(candidates@),
            candidates@.len() as int,
        ) {
            Some(i) => Some(candidates@[i].0@),
            None => None,
        },
{
    let ghost created = creation_times(candidates@);
    let mut best: Option<usize> = None;
    let mut i: usize = 0;
    while i < candidates.len()
        invariant
            i <= candidates@.len(),
            created == creation_times(candidates@),
            newest_index(created, i as int) == match best {
                Some(at) => Some(at as int),
                None => None::<int>,
            },
            best matches Some(at) ==> at < i && candidates@[at as int].1 is Some,
        decreases candidates@.len() - i,
    {
        if let Some(time) = candidates[i].1 {
            let better = match best {
                Some(at) => match candidates[at].1 {
                    Some(known) => time >= known,
                    None => true,
                },
                None => true,
            };
            if better {
                best = Some(i);
            }
        }
        i += 1;
    }
    match best {
        Some(at) => Some(candidates[at].0.clone()),
        None => None,
    }
}

/// Of the candidates that are equally new the last is taken.
pub proof fn lemma_last_of_newest(created: Seq<Option<i128>>, n: int)
    requires
        0 <= n <= created.len(),
    ensures
        newest_index(created, n) matches Some(best) ==> forall|i: int|
            best < i < n && (#[trigger] created[i]) is Some ==> created[i]->Some_0
                < created[best]->Some_0,
    decreases n,
{
    if n > 0 {
        lemma_last_of_newest(created, n - 1);
        lemma_newest(created, n - 1);
    }
}

} // verus!
