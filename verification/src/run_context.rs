//! The setting of a run: whether it may write to the index, which pull request
//! it belongs to, and what of its log is kept.

use vstd::prelude::*;

use crate::{json_text, text};

verus! {

/// What the environment says about a run.
#[derive(Debug)]
pub struct RunEnvironment {
    /// An evaluation run, which only prints its result.
    pub output_json: bool,
    /// A run that writes to a local directory.
    pub local_storage: bool,
    /// `GITHUB_EVENT_NAME`
    pub event_name: Option<String>,
    /// `GITHUB_REF`
    pub ref_name: Option<String>,
    /// `GITHUB_RUN_ID`
    pub run_id: Option<String>,
}

/// Whether a reference is the main branch, or no branch and no pull request.
pub open spec fn ref_may_upload(ref_name: Seq<char>) -> bool {
    if "refs/pull/"@.is_prefix_of(ref_name) {
        false
    } else {
        match text::strip_prefix_spec(ref_name, "refs/heads/"@) {
            Some(branch) => branch == "main"@ || branch == "master"@,
            None => true,
        }
    }
}

/// Whether a run may write to the index.
pub open spec fn may_upload(env: RunEnvironment) -> bool {
    if env.output_json {
        false
    } else if env.local_storage {
        true
    } else if env.event_name.deep_view() == Some("pull_request"@) {
        false
    } else {
        match env.ref_name {
            Some(name) => ref_may_upload(name@),
            None => true,
        }
    }
}

/// Whether a run may write to the index: not an evaluation, nor a pull request,
/// nor a branch other than the main one; always to a local directory, and where
/// nothing is known.
pub fn should_upload_data(env: &RunEnvironment) -> (r: bool)
    ensures
        r == may_upload(*env),
{
    if env.output_json {
        return false;
    }
    if env.local_storage {
        return true;
    }
    if let Some(event) = &env.event_name {
        if text::same_text(event, "pull_request") {
            return false;
        }
    }
    if let Some(name) = &env.ref_name {
        if text::starts_with(name, "refs/pull/") {
            return false;
        }
        if let Some(branch) = text::strip_prefix(name, "refs/heads/") {
            return text::same_text(&branch, "main") || text::same_text(&branch, "master");
        }
    }
    true
}

/// The number of the pull request that a reference belongs to.
pub open spec fn pr_number_of(ref_name: Option<Seq<char>>) -> Option<u64> {
    match ref_name {
        Some(name) => match text::strip_prefix_spec(name, "refs/pull/"@) {
            Some(rest) => text::parse_unsigned_spec(
                rest.take(text::first_index(rest, '/')),
                u64::MAX,
            ),
            None => None,
        },
        None => None,
    }
}

/// The number of the pull request of a run.
pub fn pr_number(env: &RunEnvironment) -> (r: Option<u64>)
    ensures
        r == pr_number_of(env.ref_name.deep_view()),
{
    let name = match &env.ref_name {
        Some(name) => name,
        None => {
            return None;
        },
    };
    let rest = match text::strip_prefix(name, "refs/pull/") {
        Some(rest) => rest,
        None => {
            return None;
        },
    };
    let v = text::chars_of(&rest);
    let end = match text::find_char(&v, '/') {
        Some(i) => i,
        None => v.len(),
    };
    let number = text::text_range(&v, 0, end);
    assert(number@ =~= rest@.take(text::first_index(rest@, '/')));
    text::parse_unsigned(&number, u64::MAX)
}

/// The identifier of a run, if it has one.
pub open spec fn run_id_of(env: RunEnvironment) -> Option<Seq<char>> {
    match env.run_id {
        Some(id) => if id@.len() > 0 {
            Some(id@)
        } else {
            None
        },
        None => None,
    }
}

/// The identifier of a run, if it has one.
pub fn run_id(env: &RunEnvironment) -> (r: Option<String>)
    ensures
        r.deep_view() == run_id_of(*env),
{
    match &env.run_id {
        Some(id) => {
            if id.as_str().is_empty() {
                None
            } else {
                Some(id.clone())
            }
        },
        None => None,
    }
}

/// The head commit of the pull request in an event's description.
pub fn head_sha_from_event(event: &str) -> (r: Option<String>)
    ensures
        r.deep_view() == json_text::json_text_at(event@, "/pull_request/head/sha"@),
{
    json_text::string_at(event, "/pull_request/head/sha")
}

/// A pull request never writes to the index, unless it writes to a local
/// directory.
pub proof fn law_pull_requests_do_not_upload(env: RunEnvironment)
    requires
        pr_number_of(env.ref_name.deep_view()) is Some,
        !env.local_storage,
    ensures
        !may_upload(env),
{
    let name = env.ref_name->0@;
    assert("refs/pull/"@.is_prefix_of(name));
}

/// An evaluation never writes to the index.
pub proof fn law_evaluations_do_not_upload(env: RunEnvironment)
    requires
        env.output_json,
    ensures
        !may_upload(env),
{
}

/// The most of a log that is kept, in bytes.
pub const MAX_LOG_BYTES: u64 = 5_242_880;

/// Where the part of a log that is kept begins: where the run began, and at
/// most so far from the end.
pub open spec fn log_start(file_len: u64, run_start: Option<u64>) -> int {
    let run = match run_start {
        Some(n) => n as int,
        None => 0,
    };
    let cap = if file_len > MAX_LOG_BYTES {
        file_len - MAX_LOG_BYTES
    } else {
        0
    };
    if run > cap {
        run
    } else {
        cap
    }
}

/// The part of a log that is kept: where it begins and how long it is.
pub fn log_range(file_len: u64, run_start: Option<u64>) -> (r: (u64, u64))
    requires
        run_start matches Some(n) ==> n <= file_len,
    ensures
        r.0 == log_start(file_len, run_start),
        r.1 == file_len - r.0,
        r.1 <= MAX_LOG_BYTES,
{
    let run = match run_start {
        Some(n) => n,
        None => 0,
    };
    let cap = if file_len > MAX_LOG_BYTES {
        file_len - MAX_LOG_BYTES
    } else {
        0
    };
    let start = if run > cap {
        run
    } else {
        cap
    };
    (start, file_len - start)
}

} // verus!
