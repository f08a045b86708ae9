//! Where a memory comes from.

use crate::transcripts::clone_opt;
use vstd::prelude::*;

verus! {

/// Who or what made a memory.
#[derive(Debug, Clone, Copy, PartialEq, Eq, Hash, Structural)]
pub enum ProvenanceSource {
    Human,
    Agent,
    Inferred,
    Imported,
}

/// Where a memory comes from.
#[derive(Debug, Clone, PartialEq, Eq)]
pub struct Provenance {
    pub source: ProvenanceSource,
    /// The agent that made the memory.
    pub agent_id: Option<String>,
    /// The session in which it was made.
    pub session_id: Option<String>,
}

impl Provenance {
    /// Made by a human.
    pub fn human() -> (r: Provenance)
        ensures
            r == (Provenance {
                source: ProvenanceSource::Human,
                agent_id: None,
                session_id: None,
            }),
    {
        Provenance { source: ProvenanceSource::Human, agent_id: None, session_id: None }
    }

    /// Made by an agent.
    pub fn agent(agent_id: &str) -> (r: Provenance)
        ensures
            r.source == ProvenanceSource::Agent,
            r.agent_id matches Some(a) && a@ == agent_id@,
            r.session_id is None,
    {
        Provenance {
            source: ProvenanceSource::Agent,
            agent_id: Some(agent_id.to_owned()),
            session_id: None,
        }
    }

    /// A copy.
    pub fn copied(&self) -> (r: Provenance)
        ensures
            r == *self,
    {
        Provenance {
            source: self.source,
            agent_id: clone_opt(&self.agent_id),
            session_id: clone_opt(&self.session_id),
        }
    }
}

} // verus!
