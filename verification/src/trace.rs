//! Per-tick telemetry: counters of births and deaths by species,
//! reset at the start of every tick and reported at tick end.

use crate::AgentKind;
use vstd::prelude::*;

verus! {

/// Births and deaths recorded during one tick.
#[derive(Clone, Copy, PartialEq, Eq, Structural, Debug)]
pub struct TickTrace {
    pub shark_birth: i64,
    pub shark_death: i64,
    pub fish_birth: i64,
    pub fish_death: i64,
}

impl TickTrace {
    /// Total births of the tick, both species together.
    pub open spec fn births(self) -> int {
        self.fish_birth + self.shark_birth
    }

    /// Total deaths of the tick, both species together.
    pub open spec fn deaths(self) -> int {
        self.fish_death + self.shark_death
    }

    /// A fresh trace with all counters at zero.
    pub fn new() -> (r: TickTrace)
        ensures
            r == (TickTrace { shark_birth: 0, shark_death: 0, fish_birth: 0, fish_death: 0 }),
    {
        TickTrace { shark_birth: 0, shark_death: 0, fish_birth: 0, fish_death: 0 }
    }

    /// Record one birth of the given species.
    pub fn birth(&mut self, agent_kind: AgentKind)
        requires
            agent_kind == AgentKind::Fish ==> old(self).fish_birth < i64::MAX,
            agent_kind == AgentKind::Shark ==> old(self).shark_birth < i64::MAX,
        ensures
            agent_kind == AgentKind::Fish ==> *final(self) == (TickTrace {
                fish_birth: (old(self).fish_birth + 1) as i64,
                ..*old(self)
            }),
            agent_kind == AgentKind::Shark ==> *final(self) == (TickTrace {
                shark_birth: (old(self).shark_birth + 1) as i64,
                ..*old(self)
            }),
    {
        match agent_kind {
            AgentKind::Fish => self.fish_birth = self.fish_birth + 1,
            AgentKind::Shark => self.shark_birth = self.shark_birth + 1,
        }
    }

    /// Record one death of the given species.
    pub fn death(&mut self, agent_kind: AgentKind)
        requires
            agent_kind == AgentKind::Fish ==> old(self).fish_death < i64::MAX,
            agent_kind == AgentKind::Shark ==> old(self).shark_death < i64::MAX,
        ensures
            agent_kind == AgentKind::Fish ==> *final(self) == (TickTrace {
                fish_death: (old(self).fish_death + 1) as i64,
                ..*old(self)
            }),
            agent_kind == AgentKind::Shark ==> *final(self) == (TickTrace {
                shark_death: (old(self).shark_death + 1) as i64,
                ..*old(self)
            }),
    {
        match agent_kind {
            AgentKind::Fish => self.fish_death = self.fish_death + 1,
            AgentKind::Shark => self.shark_death = self.shark_death + 1,
        }
    }
}

} // verus!
