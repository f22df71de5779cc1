//! The public market layer of the state: the rolling forecast queue and
//! the Exposition spotlight. Both are fully public knowledge.
use vstd::prelude::*;

use crate::content::{GameContent, MarketEffect};
use crate::rng;

verus! {

/// A drawn-but-not-yet-active market event: public the moment it is
/// scheduled, so players can plan around it.
#[derive(Debug, Clone, PartialEq, Eq)]
pub struct ScheduledEvent {
    pub event_id: String,
    pub starts_at_turn: u32,
    pub duration: u32,
}

pub struct ScheduledModel {
    pub event_id: Seq<char>,
    pub starts_at_turn: u32,
    pub duration: u32,
}

impl View for ScheduledEvent {
    type V = ScheduledModel;

    open spec fn view(&self) -> ScheduledModel {
        ScheduledModel {
            event_id: self.event_id@,
            starts_at_turn: self.starts_at_turn,
            duration: self.duration,
        }
    }
}

/// The market event currently in effect, if any. Only the rent and
/// acquisition multipliers ever occupy this slot.
#[derive(Debug, Clone, PartialEq, Eq)]
pub struct ActiveMarketEvent {
    pub event_id: String,
    pub effect: MarketEffect,
    pub magnitude_pct: i64,
    pub ends_at_turn: u32,
}

pub struct ActiveModel {
    pub event_id: Seq<char>,
    pub effect: MarketEffect,
    pub magnitude_pct: i64,
    pub ends_at_turn: u32,
}

impl View for ActiveMarketEvent {
    type V = ActiveModel;

    open spec fn view(&self) -> ActiveModel {
        ActiveModel {
            event_id: self.event_id@,
            effect: self.effect,
            magnitude_pct: self.magnitude_pct,
            ends_at_turn: self.ends_at_turn,
        }
    }
}

/// Public market forecast queue: the next scheduled events plus whichever
/// one is currently in effect. Empty and inert without market events.
#[derive(Debug, Clone, PartialEq, Eq)]
pub struct MarketForecast {
    /// Upcoming events, soonest first, kept at 3 entries.
    pub queue: Vec<ScheduledEvent>,
    pub active: Option<ActiveMarketEvent>,
}

pub struct ForecastModel {
    pub queue: Seq<ScheduledModel>,
    pub active: Option<ActiveModel>,
}

pub open spec fn active_view(a: Option<ActiveMarketEvent>) -> Option<ActiveModel> {
    match a {
        Some(x) => Some(x@),
        None => None,
    }
}

impl View for MarketForecast {
    type V = ForecastModel;

    open spec fn view(&self) -> ForecastModel {
        ForecastModel {
            queue: self.queue@.map_values(|e: ScheduledEvent| e@),
            active: active_view(self.active),
        }
    }
}

impl Default for MarketForecast {
    fn default() -> (r: Self)
        ensures
            r.queue@.len() == 0,
            r.active is None,
    {
        MarketForecast { queue: Vec::new(), active: None }
    }
}

/// The property currently in the Exposition corner's spotlight: its rent
/// is boosted until `expires_at_turn`.
#[derive(Debug, Clone, Copy, PartialEq, Eq, Structural)]
pub struct Spotlight {
    pub tile: usize,
    pub expires_at_turn: u32,
}

/// The turn after which the next drawn event is scheduled: the last queued
/// start, or `now` when the queue is empty.
pub open spec fn schedule_base(f: ForecastModel, now: u32) -> int {
    if f.queue.len() == 0 {
        now as int
    } else {
        f.queue.last().starts_at_turn as int
    }
}

impl ScheduledEvent {
    pub(crate) fn copy_of(&self) -> (r: Self)
        ensures
            r@ == self@,
    {
        ScheduledEvent {
            event_id: self.event_id.clone(),
            starts_at_turn: self.starts_at_turn,
            duration: self.duration,
        }
    }
}

impl MarketForecast {
    pub(crate) fn copy_of(&self) -> (r: Self)
        ensures
            r@ == self@,
    {
        let mut queue: Vec<ScheduledEvent> = Vec::new();
        let n = self.queue.len();
        let mut i: usize = 0;
        while i < n
            invariant
                n == self.queue@.len(),
                i <= n,
                queue@.len() == i,
                queue@.map_values(|e: ScheduledEvent| e@) == self.queue@.map_values(
                    |e: ScheduledEvent| e@,
                ).subrange(0, i as int),
            decreases n - i,
        {
            let e = self.queue[i].copy_of();
            let ghost before = queue@;
            queue.push(e);
            proof {
                assert forall|k: int| 0 <= k < i + 1 implies #[trigger] queue@[k]@ == self.queue@[k]@ by {
                    if k < i {
                        assert(before.map_values(|e: ScheduledEvent| e@)[k] == self.queue@.map_values(
                            |e: ScheduledEvent| e@,
                        ).subrange(0, i as int)[k]);
                        assert(queue@[k] == before[k]);
                    }
                }
            }
            i = i + 1;
            assert(queue@.map_values(|e: ScheduledEvent| e@) =~= self.queue@.map_values(
                |e: ScheduledEvent| e@,
            ).subrange(0, i as int));
        }
        assert(queue@.map_values(|e: ScheduledEvent| e@) =~= self.queue@.map_values(
            |e: ScheduledEvent| e@,
        ));
        let active = match &self.active {
            Some(a) => Some(
                ActiveMarketEvent {
                    event_id: a.event_id.clone(),
                    effect: a.effect,
                    magnitude_pct: a.magnitude_pct,
                    ends_at_turn: a.ends_at_turn,
                },
            ),
            None => None,
        };
        MarketForecast { queue, active }
    }
}

impl MarketForecast {
    /// Draws one event from `content.market_events` and schedules it
    /// `content.forecast_gap_turns` after whatever is already queued (or
    /// after `now` if the queue is empty). A complete no-op, with no draw,
    /// when the pool is empty, so content without market events never
    /// perturbs the seeded generator.
    pub(crate) fn draw_next(&mut self, content: &GameContent, rng: &mut u64, now: u32)
        requires
            schedule_base(old(self)@, now) + content.forecast_gap_turns <= u32::MAX,
        ensures
            content.market_events@.len() == 0 ==> final(self)@ == old(self)@ && *final(rng)
                == *old(rng),
            content.market_events@.len() > 0 ==> {
                let idx = (rng::draw(*old(rng)) % (content.market_events@.len() as u64)) as int;
                let def = content.market_events@[idx];
                &&& *final(rng) == rng::advance(*old(rng))
                &&& final(self)@.active == old(self)@.active
                &&& final(self)@.queue == old(self)@.queue.push(
                    ScheduledModel {
                        event_id: def.id@,
                        starts_at_turn: (schedule_base(old(self)@, now)
                            + content.forecast_gap_turns) as u32,
                        duration: def.duration_turns,
                    },
                )
            },
    {
        let n = content.market_events.len();
        if n == 0 {
            return;
        }
        let idx = rng::below(rng, n as u64) as usize;
        let def = &content.market_events[idx];
        let qlen = self.queue.len();
        let after = if qlen == 0 {
            now
        } else {
            self.queue[qlen - 1].starts_at_turn
        };
        let ev = ScheduledEvent {
            event_id: def.id.clone(),
            starts_at_turn: after + content.forecast_gap_turns,
            duration: def.duration_turns,
        };
        let ghost old_q = self.queue@;
        self.queue.push(ev);
        proof {
            assert(self.queue@.map_values(|e: ScheduledEvent| e@) =~= old_q.map_values(
                |e: ScheduledEvent| e@,
            ).push(ev@));
        }
    }
}

} // verus!
