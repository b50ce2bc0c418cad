use vstd::prelude::*;

verus! {

/// Time between turns, in milliseconds.
pub const TURN_INTERVAL: u64 = 400;

/// Whether the turn clock runs.
#[derive(Clone, Copy, Debug, PartialEq, Eq, Structural)]
pub enum GameStateID {
    Stopped,
    Active,
    Pause,
}

/// The turn clock: its state and the time elapsed in the current turn.
pub struct GameState {
    pub state: GameStateID,
    pub interval_ms: u64,
    pub elapsed_ms: u64,
}

impl GameState {
    pub open spec fn wf(&self) -> bool {
        self.interval_ms > 0 && self.elapsed_ms < self.interval_ms
    }

    /// A running clock with `TURN_INTERVAL` between turns, at the start of a
    /// turn.
    pub fn new() -> (r: Self)
        ensures
            r.wf(),
            r.state == GameStateID::Active,
            r.interval_ms == TURN_INTERVAL,
            r.elapsed_ms == 0,
    {
        GameState { state: GameStateID::Active, interval_ms: TURN_INTERVAL, elapsed_ms: 0 }
    }

    /// Lets `delta_ms` pass. A running clock says whether a turn ended in that
    /// time; however many ended, that is one signal, and the time left over
    /// counts towards the next turn. A paused or stopped clock does not move.
    pub fn turn_system(&mut self, delta_ms: u64) -> (r: bool)
        requires
            old(self).wf(),
        ensures
            final(self).wf(),
            final(self).state == old(self).state,
            final(self).interval_ms == old(self).interval_ms,
            old(self).state == GameStateID::Active ==> {
                &&& r == (old(self).elapsed_ms + delta_ms >= old(self).interval_ms)
                &&& final(self).elapsed_ms == (old(self).elapsed_ms + delta_ms) % (old(
                    self,
                ).interval_ms as int)
            },
            old(self).state != GameStateID::Active ==> !r && final(self).elapsed_ms == old(
                self,
            ).elapsed_ms,
    {
        match self.state {
            GameStateID::Active => {
                let total: u128 = self.elapsed_ms as u128 + delta_ms as u128;
                let fired = total >= self.interval_ms as u128;
                self.elapsed_ms = (total % self.interval_ms as u128) as u64;
                fired
            },
            _ => false,
        }
    }
}

/// However many turn signals arrived since the last pass, agents act once.
pub fn turn_over(signals: usize) -> (r: bool)
    ensures
        r == (signals > 0),
{
    signals > 0
}

} // verus!
