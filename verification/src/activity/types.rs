//! The messages that announce a running game to the bridge, and the game
//! records they are made from.
use vstd::prelude::*;

verus! {

/// A game that is running now, and since when (milliseconds since the Unix
/// epoch).
pub struct ActiveGame {
    pub game_id: String,
    pub game_name: String,
    pub pid: u32,
    pub start_timestamp: u64,
}

/// The plain content of an `ActiveGame`.
pub struct ActiveView {
    pub game_id: Seq<char>,
    pub game_name: Seq<char>,
    pub pid: u32,
    pub start_timestamp: u64,
}

impl View for ActiveGame {
    type V = ActiveView;

    open spec fn view(&self) -> ActiveView {
        ActiveView {
            game_id: self.game_id@,
            game_name: self.game_name@,
            pid: self.pid,
            start_timestamp: self.start_timestamp,
        }
    }
}

impl ActiveGame {
    /// A copy with the same content.
    pub fn duplicate(&self) -> (r: Self)
        ensures
            r@ == self@,
    {
        ActiveGame {
            game_id: self.game_id.clone(),
            game_name: self.game_name.clone(),
            pid: self.pid,
            start_timestamp: self.start_timestamp,
        }
    }
}

/// What the bridge forwards for one socket: an activity to show, or none to
/// clear it.
#[derive(Clone)]
pub struct ActivityMessage {
    pub socket_id: String,
    pub activity: Option<ActivityData>,
    pub pid: Option<u32>,
}

/// The rich-presence activity of a game.
#[derive(Clone)]
pub struct ActivityData {
    pub application_id: String,
    pub name: String,
    pub details: Option<String>,
    pub state: Option<String>,
    pub timestamps: Option<ActivityTimestamps>,
    pub assets: Option<ActivityAssets>,
    pub party: Option<ActivityParty>,
    pub secrets: Option<ActivitySecrets>,
    pub instance: Option<bool>,
    pub flags: Option<u32>,
    pub buttons: Option<Vec<String>>,
    pub metadata: Option<ActivityMetadata>,
    pub activity_type: u8,
}

/// Start and end of an activity, in milliseconds since the Unix epoch.
#[derive(Clone)]
pub struct ActivityTimestamps {
    pub start: Option<u64>,
    pub end: Option<u64>,
}

/// Images and their hover texts.
#[derive(Clone)]
pub struct ActivityAssets {
    pub large_image: Option<String>,
    pub large_text: Option<String>,
    pub small_image: Option<String>,
    pub small_text: Option<String>,
}

/// The party a player is in: its id, and its current and maximum size.
#[derive(Clone)]
pub struct ActivityParty {
    pub id: Option<String>,
    pub size: Option<[u32; 2]>,
}

/// Secrets for joining and spectating.
#[derive(Clone)]
pub struct ActivitySecrets {
    pub join: Option<String>,
    pub spectate: Option<String>,
    pub match_secret: Option<String>,
}

/// The urls behind the activity's buttons.
#[derive(Clone)]
pub struct ActivityMetadata {
    pub button_urls: Option<Vec<String>>,
}

impl ActivityData {
    /// This is the activity shown for the running game `g`: its id and name,
    /// its start time, type 0 ("playing"), and nothing else.
    pub open spec fn describes(&self, g: ActiveView) -> bool {
        &&& self.application_id@ == g.game_id
        &&& self.name@ == g.game_name
        &&& self.details is None
        &&& self.state is None
        &&& self.timestamps == Some(ActivityTimestamps { start: Some(g.start_timestamp), end: None })
        &&& self.assets is None
        &&& self.party is None
        &&& self.secrets is None
        &&& self.instance is None
        &&& self.flags is None
        &&& self.buttons is None
        &&& self.metadata is None
        &&& self.activity_type == 0
    }
}

impl<'a> From<&'a ActiveGame> for ActivityData {
    fn from(active_game: &'a ActiveGame) -> (r: Self) {
        ActivityData {
            application_id: active_game.game_id.clone(),
            name: active_game.game_name.clone(),
            details: None,
            state: None,
            timestamps: Some(ActivityTimestamps { start: Some(active_game.start_timestamp), end: None }),
            assets: None,
            party: None,
            secrets: None,
            instance: None,
            flags: None,
            buttons: None,
            metadata: None,
            activity_type: 0,
        }
    }
}

impl<'a> vstd::std_specs::convert::FromSpecImpl<&'a ActiveGame> for ActivityData {
    open spec fn obeys_from_spec() -> bool {
        true
    }

    open spec fn from_spec(active_game: &'a ActiveGame) -> ActivityData {
        ActivityData {
            application_id: active_game.game_id,
            name: active_game.game_name,
            details: None,
            state: None,
            timestamps: Some(ActivityTimestamps { start: Some(active_game.start_timestamp), end: None }),
            assets: None,
            party: None,
            secrets: None,
            instance: None,
            flags: None,
            buttons: None,
            metadata: None,
            activity_type: 0,
        }
    }
}

impl ActivityMessage {
    /// This message shows the running game `g` on its socket, with `pid`.
    pub open spec fn announces(&self, g: ActiveView, pid: Option<u32>) -> bool {
        &&& self.socket_id@ == g.game_id
        &&& self.pid == pid
        &&& self.activity matches Some(d) && d.describes(g)
    }

    /// This message clears the activity of the game `g`, which ran as `g.pid`.
    pub open spec fn withdraws(&self, g: ActiveView) -> bool {
        &&& self.socket_id@ == g.game_id
        &&& self.activity is None
        &&& self.pid == Some(g.pid)
    }

    /// The activity of a running game, sent on the socket named by its id.
    pub fn active(value: &ActiveGame, pid: Option<u32>) -> (r: Self)
        ensures
            r.announces(value@, pid),
    {
        ActivityMessage {
            socket_id: value.game_id.clone(),
            activity: Some(ActivityData::from(value)),
            pid,
        }
    }

    /// Whether the message carries an activity (and does not clear one).
    pub fn has_activity(&self) -> (r: bool)
        ensures
            r == self.activity is Some,
    {
        self.activity.is_some()
    }

    /// The message that clears the activity of a game that stopped.
    pub fn clear(active_game: ActiveGame) -> (r: Self)
        ensures
            r.withdraws(active_game@),
    {
        ActivityMessage { socket_id: active_game.game_id, activity: None, pid: Some(active_game.pid) }
    }
}

} // verus!
