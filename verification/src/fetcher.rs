//! The lock-fetch step for flake manifests: the decision of what a fetch
//! request yields, and a synchronous fetcher that queues results for the
//! caller to poll.  Performing the outside work itself — warming the
//! evaluator, background threads — is the surrounding program's part.

use vstd::prelude::*;
use crate::escape::{spec_escape_string, push_escape_string};
use crate::strutil::{push_str_chars, chars_to_string};

verus! {

/// A request to resolve a flake's inputs: the manifest's path, its inputs
/// rendered as source text, and the previous lock document where one exists.
pub struct FetcherInput {
    pub path: String,
    pub source: String,
    pub old_lock_file: Option<String>,
}

/// A resolved lock document for one manifest.
pub struct FetcherOutput {
    pub path: String,
    pub lock_file: String,
}

/// What a fetch of a manifest yields: the previous lock document is kept as
/// the resolution when there is one; without one the fetch fails.
pub fn process_input(input: FetcherInput) -> (r: Result<FetcherOutput, String>)
    ensures
        match input.old_lock_file {
            Some(lock) => r matches Ok(out) && out.path == input.path && out.lock_file == lock,
            None => r matches Err(m) && m@ == "No lock file"@,
        },
{
    match input.old_lock_file {
        Some(lock) => Ok(FetcherOutput { path: input.path, lock_file: lock }),
        None => {
            let mut out: Vec<char> = Vec::new();
            push_str_chars("No lock file", &mut out);
            Err(chars_to_string(&out))
        }
    }
}

/// The evaluator query that forces a lock document's inputs to be fetched:
/// the preloaded helper applied to the document as a string literal and an
/// empty overrides set.
pub fn flake_inputs_query(lock_file: &str) -> (r: String)
    ensures
        r@ == "__nix_analyzer_get_flake_inputs "@ + spec_escape_string(lock_file@) + " {}"@,
{
    let mut out: Vec<char> = Vec::new();
    push_str_chars("__nix_analyzer_get_flake_inputs ", &mut out);
    push_escape_string(lock_file, &mut out);
    push_str_chars(" {}", &mut out);
    proof {
        assert(out@ =~= "__nix_analyzer_get_flake_inputs "@ + spec_escape_string(lock_file@)
            + " {}"@);
    }
    chars_to_string(&out)
}

/// A fetcher that resolves each request as it is sent and queues the results
/// in order for the caller to poll.
pub struct BlockingFetcher {
    pub outputs: Vec<Result<FetcherOutput, String>>,
}

impl BlockingFetcher {
    /// A fetcher with nothing queued.
    pub fn new() -> (r: BlockingFetcher)
        ensures
            r.outputs@.len() == 0,
    {
        BlockingFetcher { outputs: Vec::new() }
    }

    /// Resolves one request and queues its result.
    pub fn send(&mut self, input: FetcherInput)
        ensures
            final(self).outputs@.len() == old(self).outputs@.len() + 1,
            final(self).outputs@.take(old(self).outputs@.len() as int) == old(self).outputs@,
            match input.old_lock_file {
                Some(lock) => final(self).outputs@.last() matches Ok(out) && out.path == input.path
                    && out.lock_file == lock,
                None => final(self).outputs@.last() matches Err(m) && m@ == "No lock file"@,
            },
    {
        let r = process_input(input);
        self.outputs.push(r);
        proof {
            assert(self.outputs@.take(old(self).outputs@.len() as int) =~= old(self).outputs@);
        }
    }

    /// The oldest queued result, if any, removed from the queue.
    pub fn try_recv(&mut self) -> (r: Option<Result<FetcherOutput, String>>)
        ensures
            old(self).outputs@.len() == 0 ==> r is None && final(self).outputs@ == old(
                self,
            ).outputs@,
            old(self).outputs@.len() > 0 ==> (r matches Some(first) && first == old(
                self,
            ).outputs@[0] && final(self).outputs@ == old(self).outputs@.drop_first()),
    {
        if self.outputs.len() == 0 {
            return None;
        }
        let first = self.outputs.remove(0);
        proof {
            assert(self.outputs@ =~= old(self).outputs@.drop_first());
        }
        Some(first)
    }
}

} // verus!
