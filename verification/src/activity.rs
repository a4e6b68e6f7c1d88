//! Which games are running, and the activity messages that announce a game
//! when it is first seen, repeat it while it runs, and clear it when it
//! stops.
pub mod types;

use vstd::prelude::*;
use crate::activity::types::{ActiveGame, ActiveView, ActivityMessage};
use crate::database::GameEntry;
use crate::outside::{now_millis, unbounded_send};
use crate::text::str_eq;

verus! {

/// One game seen running in a scan, as the process `pid`.
pub struct Sighting {
    pub id: String,
    pub name: String,
    pub pid: u32,
}

/// The plain content of a `Sighting`.
pub struct SightingView {
    pub id: Seq<char>,
    pub name: Seq<char>,
    pub pid: u32,
}

impl View for Sighting {
    type V = SightingView;

    open spec fn view(&self) -> SightingView {
        SightingView { id: self.id@, name: self.name@, pid: self.pid }
    }
}

/// What a message has to say: show a running game (with the pid it was seen
/// as in this scan), or clear a game that stopped.
pub enum Notice {
    Show(ActiveView, u32),
    Clear(ActiveView),
}

pub open spec fn sighting_views(s: Seq<Sighting>) -> Seq<SightingView> {
    Seq::new(s.len(), |i: int| s[i]@)
}

pub open spec fn game_views(g: Seq<ActiveGame>) -> Seq<ActiveView> {
    Seq::new(g.len(), |i: int| g[i]@)
}

/// No two running games share an id.
pub open spec fn ids_distinct(g: Seq<ActiveView>) -> bool {
    forall|i: int, j: int| 0 <= i < j < g.len() ==> g[i].game_id != g[j].game_id
}

/// The position of the game with this id, looking from the end.
pub open spec fn find_game(g: Seq<ActiveView>, id: Seq<char>) -> Option<int>
    decreases g.len(),
{
    if g.len() == 0 {
        None
    } else if g.last().game_id == id {
        Some(g.len() - 1)
    } else {
        find_game(g.drop_last(), id)
    }
}

/// Whether a game with this id was seen in the scan.
pub open spec fn sighted(s: Seq<SightingView>, id: Seq<char>) -> bool {
    exists|j: int| 0 <= j < s.len() && s[j].id == id
}

/// The running games and the notices after going through the sightings in
/// order: a game not running yet starts now; every sighting is shown.
pub open spec fn enter_sightings(games: Seq<ActiveView>, s: Seq<SightingView>, now: u64) -> (Seq<ActiveView>, Seq<Notice>)
    decreases s.len(),
{
    if s.len() == 0 {
        (games, Seq::empty())
    } else {
        let (g, n) = enter_sightings(games, s.drop_last(), now);
        let x = s.last();
        match find_game(g, x.id) {
            Some(i) => (g, n.push(Notice::Show(g[i], x.pid))),
            None => {
                let a = ActiveView { game_id: x.id, game_name: x.name, pid: x.pid, start_timestamp: now };
                (g.push(a), n.push(Notice::Show(a, x.pid)))
            },
        }
    }
}

/// The games that were seen in the scan, in their order.
pub open spec fn still_running(g: Seq<ActiveView>, s: Seq<SightingView>) -> Seq<ActiveView>
    decreases g.len(),
{
    if g.len() == 0 {
        Seq::empty()
    } else if sighted(s, g.last().game_id) {
        still_running(g.drop_last(), s).push(g.last())
    } else {
        still_running(g.drop_last(), s)
    }
}

/// The games that were not seen in the scan, in their order.
pub open spec fn stopped(g: Seq<ActiveView>, s: Seq<SightingView>) -> Seq<ActiveView>
    decreases g.len(),
{
    if g.len() == 0 {
        Seq::empty()
    } else if sighted(s, g.last().game_id) {
        stopped(g.drop_last(), s)
    } else {
        stopped(g.drop_last(), s).push(g.last())
    }
}

pub open spec fn clears(g: Seq<ActiveView>) -> Seq<Notice> {
    Seq::new(g.len(), |i: int| Notice::Clear(g[i]))
}

/// One scan: the running games afterwards, and the notices in the order
/// they are sent (one per sighting, then one per game that stopped).
pub open spec fn scan_step(games: Seq<ActiveView>, s: Seq<SightingView>, now: u64) -> (Seq<ActiveView>, Seq<Notice>) {
    let (g, n) = enter_sightings(games, s, now);
    (still_running(g, s), n + clears(stopped(g, s)))
}

/// The message says what the notice asks for.
pub open spec fn realizes(m: ActivityMessage, n: Notice) -> bool {
    match n {
        Notice::Show(g, pid) => m.announces(g, Some(pid)),
        Notice::Clear(g) => m.withdraws(g),
    }
}

pub open spec fn realizes_all(ms: Seq<ActivityMessage>, ns: Seq<Notice>) -> bool {
    &&& ms.len() == ns.len()
    &&& forall|i: int| 0 <= i < ms.len() ==> realizes(#[trigger] ms[i], ns[i])
}

proof fn lemma_find_game(g: Seq<ActiveView>, id: Seq<char>)
    ensures
        find_game(g, id) matches Some(i) ==> 0 <= i < g.len() && g[i].game_id == id,
        find_game(g, id) is None ==> forall|k: int| 0 <= k < g.len() ==> g[k].game_id != id,
    decreases g.len(),
{
    if g.len() > 0 {
        lemma_find_game(g.drop_last(), id);
        if g.last().game_id != id {
            assert forall|k: int| 0 <= k < g.len() - 1 implies g[k] == g.drop_last()[k] by {}
        }
    }
}

proof fn lemma_enter_sightings(games: Seq<ActiveView>, s: Seq<SightingView>, now: u64)
    requires
        ids_distinct(games),
    ensures
        ids_distinct(enter_sightings(games, s, now).0),
        enter_sightings(games, s, now).1.len() == s.len(),
        games.len() <= enter_sightings(games, s, now).0.len(),
        forall|k: int| 0 <= k < games.len() ==> enter_sightings(games, s, now).0[k] == games[k],
        forall|k: int| games.len() <= k < enter_sightings(games, s, now).0.len() ==> {
            let a = #[trigger] enter_sightings(games, s, now).0[k];
            &&& sighted(s, a.game_id)
            &&& a.start_timestamp == now
        },
        forall|j: int| #![trigger s[j]] 0 <= j < s.len() ==> exists|k: int|
            0 <= k < enter_sightings(games, s, now).0.len() && #[trigger] enter_sightings(games, s, now).0[k].game_id == s[j].id,
    decreases s.len(),
{
    if s.len() > 0 {
        let p = s.drop_last();
        lemma_enter_sightings(games, p, now);
        let (g, n) = enter_sightings(games, p, now);
        let x = s.last();
        lemma_find_game(g, x.id);
        assert forall|j: int| 0 <= j < p.len() implies s[j] == p[j] by {}
        match find_game(g, x.id) {
            Some(i) => {
                assert forall|j: int| #![trigger s[j]] 0 <= j < s.len() implies exists|k: int|
                    0 <= k < g.len() && #[trigger] g[k].game_id == s[j].id by {
                    if j == s.len() - 1 {
                        assert(g[i].game_id == s[j].id);
                    } else {
                        assert(p[j] == s[j]);
                    }
                }
                assert forall|k: int| games.len() <= k < g.len() implies sighted(s, #[trigger] g[k].game_id) by {
                    assert(sighted(p, g[k].game_id));
                    let j = choose|j: int| 0 <= j < p.len() && p[j].id == g[k].game_id;
                    assert(s[j] == p[j]);
                }
            },
            None => {
                let a = ActiveView { game_id: x.id, game_name: x.name, pid: x.pid, start_timestamp: now };
                let g2 = g.push(a);
                assert forall|j: int| #![trigger s[j]] 0 <= j < s.len() implies exists|k: int|
                    0 <= k < g2.len() && #[trigger] g2[k].game_id == s[j].id by {
                    if j == s.len() - 1 {
                        assert(g2[g.len() as int].game_id == s[j].id);
                    } else {
                        assert(p[j] == s[j]);
                        let k = choose|k: int| 0 <= k < g.len() && #[trigger] g[k].game_id == p[j].id;
                        assert(g2[k] == g[k]);
                    }
                }
                assert forall|k: int| games.len() <= k < g2.len() implies sighted(s, #[trigger] g2[k].game_id) by {
                    if k == g.len() {
                        assert(s[s.len() - 1].id == g2[k].game_id);
                    } else {
                        assert(g2[k] == g[k]);
                        assert(sighted(p, g[k].game_id));
                        let j = choose|j: int| 0 <= j < p.len() && p[j].id == g[k].game_id;
                        assert(s[j] == p[j]);
                    }
                }
            },
        }
    }
}

/// `x` is one of the games in `g` that were seen in the scan.
pub open spec fn seen_member(g: Seq<ActiveView>, s: Seq<SightingView>, x: ActiveView) -> bool {
    exists|j: int| 0 <= j < g.len() && g[j] == x && sighted(s, g[j].game_id)
}

proof fn lemma_running_from(g: Seq<ActiveView>, s: Seq<SightingView>)
    ensures
        forall|k: int| 0 <= k < still_running(g, s).len() ==> seen_member(g, s, #[trigger] still_running(g, s)[k]),
    decreases g.len(),
{
    if g.len() > 0 {
        let p = g.drop_last();
        lemma_running_from(p, s);
        let r = still_running(p, s);
        if sighted(s, g.last().game_id) {
            let r2 = r.push(g.last());
            assert(still_running(g, s) == r2);
            assert forall|k: int| 0 <= k < r2.len() implies seen_member(g, s, #[trigger] r2[k]) by {
                if k == r.len() {
                    assert(g[g.len() - 1] == r2[k]);
                } else {
                    assert(r2[k] == r[k]);
                    assert(seen_member(p, s, r[k]));
                    let j = choose|j: int| 0 <= j < p.len() && p[j] == r[k] && sighted(s, p[j].game_id);
                    assert(g[j] == p[j]);
                }
            }
        } else {
            assert(still_running(g, s) == r);
            assert forall|k: int| 0 <= k < r.len() implies seen_member(g, s, #[trigger] r[k]) by {
                assert(seen_member(p, s, r[k]));
                let j = choose|j: int| 0 <= j < p.len() && p[j] == r[k] && sighted(s, p[j].game_id);
                assert(g[j] == p[j]);
            }
        }
    }
}

proof fn lemma_running_distinct(g: Seq<ActiveView>, s: Seq<SightingView>)
    requires
        ids_distinct(g),
    ensures
        ids_distinct(still_running(g, s)),
    decreases g.len(),
{
    if g.len() > 0 {
        let p = g.drop_last();
        assert(ids_distinct(p));
        lemma_running_distinct(p, s);
        lemma_running_from(p, s);
        let r = still_running(p, s);
        if sighted(s, g.last().game_id) {
            let r2 = r.push(g.last());
            assert forall|a: int, b: int| 0 <= a < b < r2.len() implies r2[a].game_id != r2[b].game_id by {
                assert(r2[a] == r[a]);
                if b == r.len() {
                    assert(seen_member(p, s, r[a]));
                    let j = choose|j: int| 0 <= j < p.len() && p[j] == r[a] && sighted(s, p[j].game_id);
                    assert(g[j] == p[j]);
                    assert(g[j].game_id != g[g.len() - 1].game_id);
                } else {
                    assert(r2[b] == r[b]);
                }
            }
        }
    }
}

proof fn lemma_running_keeps(g: Seq<ActiveView>, s: Seq<SightingView>)
    ensures
        forall|j: int| #![trigger g[j]] 0 <= j < g.len() && sighted(s, g[j].game_id) ==> exists|k: int|
            0 <= k < still_running(g, s).len() && #[trigger] still_running(g, s)[k] == g[j],
    decreases g.len(),
{
    if g.len() > 0 {
        let p = g.drop_last();
        lemma_running_keeps(p, s);
        let r = still_running(p, s);
        if sighted(s, g.last().game_id) {
            let r2 = r.push(g.last());
            assert(still_running(g, s) == r2);
            assert forall|j: int| #![trigger g[j]] 0 <= j < g.len() && sighted(s, g[j].game_id) implies exists|k: int|
                0 <= k < r2.len() && #[trigger] r2[k] == g[j] by {
                if j == g.len() - 1 {
                    assert(r2[r.len() as int] == g[j]);
                } else {
                    assert(p[j] == g[j]);
                    let k = choose|k: int| 0 <= k < r.len() && #[trigger] r[k] == p[j];
                    assert(r2[k] == r[k]);
                }
            }
        } else {
            assert(still_running(g, s) == r);
            assert forall|j: int| #![trigger g[j]] 0 <= j < g.len() && sighted(s, g[j].game_id) implies exists|k: int|
                0 <= k < r.len() && #[trigger] r[k] == g[j] by {
                assert(j != g.len() - 1);
                assert(p[j] == g[j]);
            }
        }
    }
}

proof fn lemma_stopped_unsighted(g: Seq<ActiveView>, s: Seq<SightingView>)
    ensures
        forall|k: int| 0 <= k < stopped(g, s).len() ==> !sighted(s, #[trigger] stopped(g, s)[k].game_id),
    decreases g.len(),
{
    if g.len() > 0 {
        let p = g.drop_last();
        lemma_stopped_unsighted(p, s);
        if !sighted(s, g.last().game_id) {
            let t = stopped(p, s).push(g.last());
            assert forall|k: int| 0 <= k < t.len() implies !sighted(s, #[trigger] t[k].game_id) by {
                if k < stopped(p, s).len() {
                    assert(t[k] == stopped(p, s)[k]);
                }
            }
        }
    }
}

proof fn lemma_stopped_keeps(g: Seq<ActiveView>, s: Seq<SightingView>)
    ensures
        forall|j: int| #![trigger g[j]] 0 <= j < g.len() && !sighted(s, g[j].game_id) ==> exists|k: int|
            0 <= k < stopped(g, s).len() && #[trigger] stopped(g, s)[k] == g[j],
    decreases g.len(),
{
    if g.len() > 0 {
        let p = g.drop_last();
        lemma_stopped_keeps(p, s);
        let r = stopped(p, s);
        if !sighted(s, g.last().game_id) {
            let r2 = r.push(g.last());
            assert(stopped(g, s) == r2);
            assert forall|j: int| #![trigger g[j]] 0 <= j < g.len() && !sighted(s, g[j].game_id) implies exists|k: int|
                0 <= k < r2.len() && #[trigger] r2[k] == g[j] by {
                if j == g.len() - 1 {
                    assert(r2[r.len() as int] == g[j]);
                } else {
                    assert(p[j] == g[j]);
                    let k = choose|k: int| 0 <= k < r.len() && #[trigger] r[k] == p[j];
                    assert(r2[k] == r[k]);
                }
            }
        } else {
            assert(stopped(g, s) == r);
            assert forall|j: int| #![trigger g[j]] 0 <= j < g.len() && !sighted(s, g[j].game_id) implies exists|k: int|
                0 <= k < r.len() && #[trigger] r[k] == g[j] by {
                assert(j != g.len() - 1);
                assert(p[j] == g[j]);
            }
        }
    }
}

/// A game that was running and is not seen in a scan is cleared: after the
/// notices for the sightings comes a clearing notice for it, with its
/// record as it was.
pub proof fn law_stopped_games_are_cleared(games: Seq<ActiveView>, s: Seq<SightingView>, now: u64, i: int)
    requires
        ids_distinct(games),
        0 <= i < games.len(),
        !sighted(s, games[i].game_id),
    ensures
        exists|k: int| s.len() <= k < scan_step(games, s, now).1.len()
            && #[trigger] scan_step(games, s, now).1[k] == Notice::Clear(games[i]),
{
    lemma_enter_sightings(games, s, now);
    let (g, n) = enter_sightings(games, s, now);
    assert(g[i] == games[i]);
    lemma_stopped_keeps(g, s);
    let st = stopped(g, s);
    let k = choose|k: int| 0 <= k < st.len() && #[trigger] st[k] == g[i];
    let notices = scan_step(games, s, now).1;
    assert(notices == n + clears(st));
    assert(notices[s.len() + k] == clears(st)[k]);
}

/// After a scan, the running games are exactly the games seen in it: each
/// seen id runs, once, and nothing else runs.
pub proof fn law_running_games_are_the_sighted_ones(games: Seq<ActiveView>, s: Seq<SightingView>, now: u64)
    requires
        ids_distinct(games),
    ensures
        ids_distinct(scan_step(games, s, now).0),
        forall|id: Seq<char>| sighted(s, id) <==> exists|k: int|
            0 <= k < scan_step(games, s, now).0.len() && #[trigger] scan_step(games, s, now).0[k].game_id == id,
{
    lemma_enter_sightings(games, s, now);
    let g = enter_sightings(games, s, now).0;
    lemma_running_from(g, s);
    lemma_running_keeps(g, s);
    lemma_running_distinct(g, s);
    let r = scan_step(games, s, now).0;
    assert forall|id: Seq<char>| sighted(s, id) implies exists|k: int| 0 <= k < r.len() && #[trigger] r[k].game_id == id by {
        let j = choose|j: int| 0 <= j < s.len() && s[j].id == id;
        let m = choose|m: int| 0 <= m < g.len() && #[trigger] g[m].game_id == s[j].id;
        let k = choose|k: int| 0 <= k < r.len() && #[trigger] r[k] == g[m];
        assert(r[k].game_id == id);
    }
    assert forall|id: Seq<char>| (exists|k: int| 0 <= k < r.len() && #[trigger] r[k].game_id == id) implies sighted(s, id) by {
        let k = choose|k: int| 0 <= k < r.len() && #[trigger] r[k].game_id == id;
        assert(seen_member(g, s, r[k]));
        let j = choose|j: int| 0 <= j < g.len() && g[j] == r[k] && sighted(s, g[j].game_id);
    }
}

/// A game that was running and is seen again keeps its record: the same
/// start time and the pid it was first seen as.
pub proof fn law_session_survives_rescan(games: Seq<ActiveView>, s: Seq<SightingView>, now: u64, i: int)
    requires
        ids_distinct(games),
        0 <= i < games.len(),
        sighted(s, games[i].game_id),
    ensures
        exists|k: int| 0 <= k < scan_step(games, s, now).0.len() && #[trigger] scan_step(games, s, now).0[k] == games[i],
{
    lemma_enter_sightings(games, s, now);
    let g = enter_sightings(games, s, now).0;
    lemma_running_keeps(g, s);
    assert(g[i] == games[i]);
    assert(sighted(s, g[i].game_id));
    assert(scan_step(games, s, now).0 == still_running(g, s));
    let k = choose|k: int| 0 <= k < still_running(g, s).len() && #[trigger] still_running(g, s)[k] == g[i];
    assert(scan_step(games, s, now).0[k] == games[i]);
}

/// A game seen for the first time starts its record at the scan's time; a
/// scan gives one showing notice per sighting and one clearing notice per
/// game that stopped, and no game that stopped was among the sightings.
pub proof fn law_new_games_start_now(games: Seq<ActiveView>, s: Seq<SightingView>, now: u64)
    requires
        ids_distinct(games),
    ensures
        forall|k: int| 0 <= k < scan_step(games, s, now).0.len() ==> {
            let a = #[trigger] scan_step(games, s, now).0[k];
            (forall|i: int| 0 <= i < games.len() ==> games[i].game_id != a.game_id) ==> a.start_timestamp == now
        },
        scan_step(games, s, now).1.len() == s.len() + stopped(enter_sightings(games, s, now).0, s).len(),
        forall|k: int| 0 <= k < stopped(enter_sightings(games, s, now).0, s).len() ==>
            !sighted(s, #[trigger] stopped(enter_sightings(games, s, now).0, s)[k].game_id),
{
    lemma_enter_sightings(games, s, now);
    let g = enter_sightings(games, s, now).0;
    lemma_running_from(g, s);
    lemma_stopped_unsighted(g, s);
    let r = scan_step(games, s, now).0;
    assert forall|k: int| 0 <= k < r.len() implies {
        let a = #[trigger] r[k];
        (forall|i: int| 0 <= i < games.len() ==> games[i].game_id != a.game_id) ==> a.start_timestamp == now
    } by {
        assert(seen_member(g, s, r[k]));
        let j = choose|j: int| 0 <= j < g.len() && g[j] == r[k] && sighted(s, g[j].game_id);
        if j < games.len() {
            assert(g[j] == games[j]);
        }
    }
}

/// The games that are running, with no id twice.
pub struct ActiveGames {
    games: Vec<ActiveGame>,
}

impl View for ActiveGames {
    type V = Seq<ActiveView>;

    closed spec fn view(&self) -> Seq<ActiveView> {
        game_views(self.games@)
    }
}

impl ActiveGames {
    #[verifier::type_invariant]
    closed spec fn well_formed(&self) -> bool {
        ids_distinct(game_views(self.games@))
    }

    /// No game runs.
    pub fn new() -> (r: Self)
        ensures
            r@ == Seq::<ActiveView>::empty(),
    {
        let r = ActiveGames { games: Vec::new() };
        assert(r@ =~= Seq::<ActiveView>::empty());
        r
    }

    /// The number of running games.
    pub fn len(&self) -> (r: usize)
        ensures
            r == self@.len(),
    {
        self.games.len()
    }

    /// Records one scan and returns the messages to send, in order: one per
    /// sighting (the game's activity, with the pid seen), then one clearing
    /// message per game that was running and was not seen.
    pub fn apply_scan(&mut self, sightings: &Vec<Sighting>, now: u64) -> (outbox: Vec<ActivityMessage>)
        ensures
            final(self)@ == scan_step(old(self)@, sighting_views(sightings@), now).0,
            realizes_all(outbox@, scan_step(old(self)@, sighting_views(sightings@), now).1),
            ids_distinct(final(self)@),
    {
        proof {
            use_type_invariant(&*self);
        }
        let ghost start = self@;
        let ghost sv = sighting_views(sightings@);
        let mut games: Vec<ActiveGame> = Vec::new();
        std::mem::swap(&mut games, &mut self.games);
        assert(game_views(games@) == start);
        let mut outbox: Vec<ActivityMessage> = Vec::new();
        let n = sightings.len();
        for i in 0..n
            invariant
                n == sightings@.len(),
                sv == sighting_views(sightings@),
                ids_distinct(start),
                game_views(games@) == enter_sightings(start, sv.take(i as int), now).0,
                realizes_all(outbox@, enter_sightings(start, sv.take(i as int), now).1),
        {
            proof {
                lemma_enter_sightings(start, sv.take(i as int), now);
                assert(sv.take(i + 1).drop_last() == sv.take(i as int));
            }
            let s = &sightings[i];
            let ghost before = game_views(games@);
            let found = find_active(&games, &s.id);
            match found {
                Some(k) => {
                    let m = ActivityMessage::active(&games[k], Some(s.pid));
                    outbox.push(m);
                    proof {
                        assert(games@[k as int]@ == before[k as int]);
                    }
                },
                None => {
                    let g = ActiveGame {
                        game_id: s.id.clone(),
                        game_name: s.name.clone(),
                        pid: s.pid,
                        start_timestamp: now,
                    };
                    let m = ActivityMessage::active(&g, Some(s.pid));
                    outbox.push(m);
                    games.push(g);
                    proof {
                        assert(game_views(games@) =~= before.push(g@));
                    }
                },
            }
            proof {
                let t = enter_sightings(start, sv.take(i + 1), now).1;
                assert forall|j: int| 0 <= j < outbox@.len() implies realizes(#[trigger] outbox@[j], t[j]) by {}
            }
        }
        proof {
            assert(sv.take(n as int) == sv);
            lemma_enter_sightings(start, sv, now);
        }
        let ghost entered = game_views(games@);
        let ghost shown = enter_sightings(start, sv, now).1;
        let mut kept: Vec<ActiveGame> = Vec::new();
        let m = games.len();
        for k in 0..m
            invariant
                m == games@.len(),
                entered == game_views(games@),
                ids_distinct(entered),
                sv == sighting_views(sightings@),
                game_views(kept@) == still_running(entered.take(k as int), sv),
                realizes_all(outbox@, shown + clears(stopped(entered.take(k as int), sv))),
        {
            proof {
                assert(entered.take(k + 1).drop_last() == entered.take(k as int));
                assert(entered.take(k + 1).last() == entered[k as int]);
            }
            let seen = was_sighted(sightings, &games[k].game_id);
            let ghost before_kept = game_views(kept@);
            let ghost before_clears = shown + clears(stopped(entered.take(k as int), sv));
            if seen {
                let g = games[k].duplicate();
                kept.push(g);
                proof {
                    assert(game_views(kept@) =~= before_kept.push(entered[k as int]));
                }
            } else {
                let g = games[k].duplicate();
                outbox.push(ActivityMessage::clear(g));
                proof {
                    let after = shown + clears(stopped(entered.take(k + 1), sv));
                    assert(after =~= before_clears.push(Notice::Clear(entered[k as int])));
                    assert forall|j: int| 0 <= j < outbox@.len() implies realizes(#[trigger] outbox@[j], after[j]) by {}
                }
            }
        }
        proof {
            assert(entered.take(m as int) == entered);
            lemma_running_distinct(entered, sv);
        }
        self.games = kept;
        outbox
    }
}

/// The position of the running game with this id, if one runs.
fn find_active(games: &Vec<ActiveGame>, id: &String) -> (r: Option<usize>)
    ensures
        r matches Some(k) ==> find_game(game_views(games@), id@) == Some(k as int) && k < games@.len(),
        r is None ==> find_game(game_views(games@), id@) is None,
{
    let ghost all = game_views(games@);
    let mut i = games.len();
    assert(all.take(i as int) == all);
    while i > 0
        invariant
            i <= games@.len(),
            all == game_views(games@),
            find_game(all, id@) == find_game(all.take(i as int), id@),
        decreases i,
    {
        proof {
            assert(all.take(i as int).drop_last() == all.take(i - 1));
            assert(all.take(i as int).last() == all[i - 1]);
        }
        if str_eq(&games[i - 1].game_id, id) {
            return Some(i - 1);
        }
        i = i - 1;
    }
    proof {
        assert(all.take(0) == Seq::<ActiveView>::empty());
    }
    None
}

/// Whether a game with this id is among the sightings.
fn was_sighted(sightings: &Vec<Sighting>, id: &String) -> (r: bool)
    ensures
        r == sighted(sighting_views(sightings@), id@),
{
    let ghost sv = sighting_views(sightings@);
    let n = sightings.len();
    for j in 0..n
        invariant
            n == sightings@.len(),
            sv == sighting_views(sightings@),
            forall|k: int| 0 <= k < j ==> sv[k].id != id@,
    {
        if str_eq(&sightings[j].id, id) {
            assert(sv[j as int].id == id@);
            return true;
        }
    }
    false
}

/// The sightings of one scan, from the games it detected.
pub fn sightings_of(detected: &Vec<(&GameEntry, u32)>) -> (r: Vec<Sighting>)
    ensures
        r@.len() == detected@.len(),
        forall|i: int| #![trigger r@[i]] 0 <= i < r@.len() ==> {
            &&& r@[i].id@ == detected@[i].0.id@
            &&& r@[i].name@ == detected@[i].0.name@
            &&& r@[i].pid == detected@[i].1
        },
{
    let mut r: Vec<Sighting> = Vec::new();
    let n = detected.len();
    for i in 0..n
        invariant
            n == detected@.len(),
            r@.len() == i,
            forall|k: int| #![trigger r@[k]] 0 <= k < i ==> {
                &&& r@[k].id@ == detected@[k].0.id@
                &&& r@[k].name@ == detected@[k].0.name@
                &&& r@[k].pid == detected@[k].1
            },
    {
        let (game, pid) = detected[i];
        r.push(Sighting { id: game.id.clone(), name: game.name.clone(), pid });
    }
    r
}

/// Keeps track of the running games and sends their activity messages.
pub struct ActivityManager {
    active_games: ActiveGames,
    message_sender: tokio::sync::mpsc::UnboundedSender<ActivityMessage>,
    sent: Ghost<Seq<ActivityMessage>>,
}

impl ActivityManager {
    /// The running games.
    pub closed spec fn running(&self) -> Seq<ActiveView> {
        self.active_games@
    }

    /// Every message handed to the message channel so far, in order.
    pub closed spec fn sent_log(&self) -> Seq<ActivityMessage> {
        self.sent@
    }

    /// No game runs yet; messages go to `message_sender`.
    pub fn new(message_sender: tokio::sync::mpsc::UnboundedSender<ActivityMessage>) -> (r: Self)
        ensures
            r.running() == Seq::<ActiveView>::empty(),
            r.sent_log() == Seq::<ActivityMessage>::empty(),
    {
        ActivityManager { active_games: ActiveGames::new(), message_sender, sent: Ghost(Seq::empty()) }
    }

    /// Records the games detected in one scan and sends the messages
    /// `ActiveGames::apply_scan` gives, with the clock's time as the start
    /// of the games seen for the first time.
    pub fn update_detected_games(&mut self, detected: Vec<(&GameEntry, u32)>)
        ensures
            exists|now: u64| final(self).running() == scan_step(
                old(self).running(),
                sighting_views(sightings_view(detected@)),
                now,
            ).0 && realizes_all(
                final(self).sent_log().skip(old(self).sent_log().len() as int),
                scan_step(old(self).running(), sighting_views(sightings_view(detected@)), now).1,
            ),
            final(self).sent_log().len() >= old(self).sent_log().len(),
            final(self).sent_log().take(old(self).sent_log().len() as int) == old(self).sent_log(),
    {
        let sightings = sightings_of(&detected);
        let now = now_millis();
        let outbox = self.active_games.apply_scan(&sightings, now);
        proof {
            assert(sighting_views(sightings@) =~= sighting_views(sightings_view(detected@)));
        }
        let ghost after = self.running();
        let ghost all = outbox@;
        let ghost start = self.sent@;
        let mut outbox = outbox;
        while outbox.len() > 0
            invariant
                self.running() == after,
                outbox@.len() <= all.len(),
                outbox@ == all.skip(all.len() - outbox@.len()),
                self.sent@ == start + all.take(all.len() - outbox@.len()),
            decreases outbox@.len(),
        {
            let ghost k = all.len() - outbox@.len();
            let message = outbox.remove(0);
            proof {
                assert(message == all[k]);
                assert(outbox@ =~= all.skip(k + 1));
                self.sent@ = self.sent@.push(message);
                assert(all.take(k + 1) =~= all.take(k).push(all[k]));
            }
            unbounded_send(&self.message_sender, message);
        }
        proof {
            assert(all.take(all.len() as int) =~= all);
            assert(self.sent@.skip(start.len() as int) =~= all);
            assert(self.sent@.take(start.len() as int) =~= start);
        }
        assert(self.running() == scan_step(old(self).running(), sighting_views(sightings_view(detected@)), now).0);
    }

    /// The number of running games.
    pub fn len(&self) -> (r: usize)
        ensures
            r == self.running().len(),
    {
        self.active_games.len()
    }
}

/// The sightings that a list of detected games stands for.
pub open spec fn sightings_view(detected: Seq<(&GameEntry, u32)>) -> Seq<Sighting> {
    Seq::new(detected.len(), |i: int| Sighting { id: detected[i].0.id, name: detected[i].0.name, pid: detected[i].1 })
}

} // verus!
