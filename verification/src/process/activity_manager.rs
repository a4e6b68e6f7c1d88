//! The activity bookkeeping of the process detector: the same scan rules as
//! `crate::activity`, fed with the games of the process database.
use vstd::prelude::*;
use crate::activity::types::{ActiveView, ActivityMessage};
use crate::activity::{realizes_all, scan_step, sighting_views, ActiveGames, Sighting};
use crate::outside::{now_millis, unbounded_send};
use crate::process::database::GameEntry;

verus! {

/// The sightings that a list of detected games stands for.
pub open spec fn detected_sightings(detected: Seq<(&GameEntry, u32)>) -> Seq<Sighting> {
    Seq::new(detected.len(), |i: int| Sighting { id: detected[i].0.id, name: detected[i].0.name, pid: detected[i].1 })
}

/// The sightings of one scan, from the games it detected.
pub fn sightings_from(detected: &Vec<(&GameEntry, u32)>) -> (r: Vec<Sighting>)
    ensures
        sighting_views(r@) == sighting_views(detected_sightings(detected@)),
{
    let mut r: Vec<Sighting> = Vec::new();
    let n = detected.len();
    for i in 0..n
        invariant
            n == detected@.len(),
            r@.len() == i,
            forall|k: int| #![trigger r@[k]] 0 <= k < i ==> {
                &&& r@[k].id@ == detected@[k].0.id@
                &&& r@[k].name@ == detected@[k].0.name@
                &&& r@[k].pid == detected@[k].1
            },
    {
        let (game, pid) = detected[i];
        r.push(Sighting { id: game.id.clone(), name: game.name.clone(), pid });
    }
    assert(sighting_views(r@) =~= sighting_views(detected_sightings(detected@)));
    r
}

/// Keeps track of the running games and sends their activity messages.
pub struct ActivityManager {
    active_games: ActiveGames,
    message_sender: tokio::sync::mpsc::UnboundedSender<ActivityMessage>,
    sent: Ghost<Seq<ActivityMessage>>,
}

impl ActivityManager {
    /// The running games.
    pub closed spec fn running(&self) -> Seq<ActiveView> {
        self.active_games@
    }

    /// Every message handed to the message channel so far, in order.
    pub closed spec fn sent_log(&self) -> Seq<ActivityMessage> {
        self.sent@
    }

    /// No game runs yet; messages go to `message_sender`.
    pub fn new(message_sender: tokio::sync::mpsc::UnboundedSender<ActivityMessage>) -> (r: Self)
        ensures
            r.running() == Seq::<ActiveView>::empty(),
            r.sent_log() == Seq::<ActivityMessage>::empty(),
    {
        ActivityManager { active_games: ActiveGames::new(), message_sender, sent: Ghost(Seq::empty()) }
    }

    /// Records the games detected in one scan and sends the messages
    /// `ActiveGames::apply_scan` gives, with the clock's time as the start
    /// of the games seen for the first time.
    pub fn update_detected_games(&mut self, detected: Vec<(&GameEntry, u32)>)
        ensures
            exists|now: u64| final(self).running() == scan_step(
                old(self).running(),
                sighting_views(detected_sightings(detected@)),
                now,
            ).0 && realizes_all(
                final(self).sent_log().skip(old(self).sent_log().len() as int),
                scan_step(old(self).running(), sighting_views(detected_sightings(detected@)), now).1,
            ),
            final(self).sent_log().len() >= old(self).sent_log().len(),
            final(self).sent_log().take(old(self).sent_log().len() as int) == old(self).sent_log(),
    {
        let sightings = sightings_from(&detected);
        let now = now_millis();
        let outbox = self.active_games.apply_scan(&sightings, now);
        let ghost after = self.running();
        let ghost all = outbox@;
        let ghost start = self.sent@;
        let mut outbox = outbox;
        while outbox.len() > 0
            invariant
                self.running() == after,
                outbox@.len() <= all.len(),
                outbox@ == all.skip(all.len() - outbox@.len()),
                self.sent@ == start + all.take(all.len() - outbox@.len()),
            decreases outbox@.len(),
        {
            let ghost k = all.len() - outbox@.len();
            let message = outbox.remove(0);
            proof {
                assert(message == all[k]);
                assert(outbox@ =~= all.skip(k + 1));
                self.sent@ = self.sent@.push(message);
                assert(all.take(k + 1) =~= all.take(k).push(all[k]));
            }
            unbounded_send(&self.message_sender, message);
        }
        proof {
            assert(all.take(all.len() as int) =~= all);
            assert(self.sent@.skip(start.len() as int) =~= all);
            assert(self.sent@.take(start.len() as int) =~= start);
        }
        assert(self.running() == scan_step(old(self).running(), sighting_views(detected_sightings(detected@)), now).0);
    }

    /// The number of running games.
    pub fn len(&self) -> (r: usize)
        ensures
            r == self.running().len(),
    {
        self.active_games.len()
    }
}

} // verus!
