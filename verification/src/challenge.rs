//! Disputes of a memory's validity.

use crate::time::{utc_now, Timestamp};
use crate::transcripts::clone_opt;
use vstd::prelude::*;

verus! {

/// A challenge to a memory's validity.
#[derive(Debug, Clone, PartialEq, Eq)]
pub struct Challenge {
    /// When the challenge was made.
    pub timestamp: Timestamp,
    /// Agent or user who made it.
    pub agent_id: Option<String>,
    /// Evidence or reason.
    pub evidence: String,
    /// Source file that contradicts the memory.
    pub source_file: Option<String>,
}

impl Challenge {
    /// A challenge made at the given time.
    pub fn new_at(evidence: &str, now: Timestamp) -> (r: Challenge)
        ensures
            r.timestamp == now,
            r.agent_id is None,
            r.evidence@ == evidence@,
            r.source_file is None,
    {
        Challenge {
            timestamp: now,
            agent_id: None,
            evidence: evidence.to_owned(),
            source_file: None,
        }
    }

    /// A challenge made now.
    pub fn new(evidence: &str) -> (r: Challenge)
        ensures
            crate::time::clock_time(r.timestamp),
            r.agent_id is None,
            r.evidence@ == evidence@,
            r.source_file is None,
    {
        Challenge::new_at(evidence, utc_now())
    }

    /// The same challenge with the agent that makes it.
    pub fn with_agent(self, agent_id: &str) -> (r: Challenge)
        ensures
            r == (Challenge { agent_id: r.agent_id, ..self }),
            r.agent_id matches Some(a) && a@ == agent_id@,
    {
        Challenge { agent_id: Some(agent_id.to_owned()), ..self }
    }

    /// The same challenge with the file that contradicts the memory.
    pub fn with_source_file(self, source_file: &str) -> (r: Challenge)
        ensures
            r == (Challenge { source_file: r.source_file, ..self }),
            r.source_file matches Some(f) && f@ == source_file@,
    {
        Challenge { source_file: Some(source_file.to_owned()), ..self }
    }

    /// A copy.
    pub fn copied(&self) -> (r: Challenge)
        ensures
            r == *self,
    {
        Challenge {
            timestamp: self.timestamp,
            agent_id: clone_opt(&self.agent_id),
            evidence: self.evidence.clone(),
            source_file: clone_opt(&self.source_file),
        }
    }
}

/// A copy of a list of challenges.
pub fn copy_challenges(list: &[Challenge]) -> (r: Vec<Challenge>)
    ensures
        r@ == list@,
{
    let mut out: Vec<Challenge> = Vec::new();
    let mut i: usize = 0;
    while i < list.len()
        invariant
            i <= list.len(),
            out@ == list@.take(i as int),
        decreases list.len() - i,
    {
        out.push(list[i].copied());
        i += 1;
        assert(out@ =~= list@.take(i as int));
    }
    assert(list@.take(i as int) =~= list@);
    out
}

} // verus!
