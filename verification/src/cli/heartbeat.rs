//! How a node that is up keeps its token and its endpoint known to the server.

use crate::cli::state;
use crate::cli::state::{is_token_expired_soon, State};
use crate::coord::db;
use crate::coord::routes::RefreshResponse;
use crate::time::Duration;
use vstd::prelude::*;

verus! {

/// How long a node rests between two heartbeats.
pub const INTERVAL_SECS: u64 = 20;

/// How long before its end a token is exchanged.
pub const GRACE_SECS: i64 = 60;

/// Where the round of a heartbeat stands.
pub enum Stage {
    /// Before a rest.
    Due,
    /// Resting.
    Resting,
    /// The state was asked for, to look at the token.
    Checking,
    /// A new token was asked for.
    Refreshing,
    /// The state was asked for, to note a new token.
    Noting { resp: RefreshResponse },
    /// The state with a new token is being saved.
    Noted,
    /// The heartbeat is being sent.
    Beating,
    /// The state was asked for, to note what was announced.
    Recording,
}

/// What a node is to do next.
pub enum Task {
    /// Rest.
    Rest { span: Duration },
    /// Load the state.
    Load,
    /// Exchange the token.
    Refresh { token: String },
    /// Save the state.
    Save { state: State },
    /// Send a heartbeat.
    Beat { token: String },
}

/// How a task went.
pub enum Report {
    /// It was carried out, or it failed and that does not matter.
    Done,
    /// The state, where it could be loaded.
    Loaded { state: Option<State> },
    /// The server's answer, where it gave a new token.
    Refreshed { resp: Option<RefreshResponse> },
}

/// The heartbeats of a node that is up.
pub struct Heartbeats {
    /// The token that the node uses.
    pub auth_token: String,
    /// The endpoint that it announces.
    pub endpoint: String,
    /// Where the round stands.
    pub stage: Stage,
}

/// Whether a token is to be exchanged.
pub open spec fn exchange_due(s: State, now: i64) -> bool {
    state::expired(s.auth_token_expires_at, now + GRACE_SECS)
}

impl Heartbeats {
    /// A node that has just sent its first heartbeat.
    pub fn new(auth_token: &str, endpoint: &str) -> (r: Self)
        ensures
            r.auth_token@ == auth_token@,
            r.endpoint@ == endpoint@,
            r.stage is Due,
    {
        Heartbeats {
            auth_token: auth_token.to_string(),
            endpoint: endpoint.to_string(),
            stage: Stage::Due,
        }
    }

    /// Whether a report is one of the task that was handed out last.
    pub open spec fn fits(self, report: Report) -> bool {
        match self.stage {
            Stage::Checking | Stage::Noting { .. } | Stage::Recording => report is Loaded,
            Stage::Refreshing => report is Refreshed,
            _ => report is Done,
        }
    }

    /// Whether nothing but the stage changed.
    pub open spec fn moved_on(self, after: Heartbeats) -> bool {
        after.auth_token@ == self.auth_token@ && after.endpoint@ == self.endpoint@
    }

    /// Whether the heartbeat is sent next, with the token that the node uses.
    pub open spec fn beats(self, after: Heartbeats, task: Task) -> bool {
        &&& self.moved_on(after)
        &&& after.stage is Beating
        &&& task matches Task::Beat { token } && token@ == self.auth_token@
    }

    /// What one move of a round does. After a rest the token is looked at and,
    /// where it ends soon, exchanged; from then on the new one is used, and it is
    /// noted in the state. Then the heartbeat is sent, and what was announced is
    /// noted, whether the server took it or not.
    pub open spec fn advanced(
        self,
        report: Report,
        now: i64,
        moment: i64,
        after: Heartbeats,
        task: Task,
    ) -> bool {
        match (self.stage, report) {
            (Stage::Due, _) => {
                &&& self.moved_on(after)
                &&& after.stage is Resting
                &&& task matches Task::Rest { span } && span.nanos == 20_000_000_000
            },
            (Stage::Resting, _) => {
                &&& self.moved_on(after)
                &&& after.stage is Checking
                &&& task is Load
            },
            (Stage::Checking, Report::Loaded { state: Some(s) }) if exchange_due(s, now) => {
                &&& self.moved_on(after)
                &&& after.stage is Refreshing
                &&& task matches Task::Refresh { token } && token@ == self.auth_token@
            },
            (Stage::Refreshing, Report::Refreshed { resp: Some(answer) }) => {
                &&& after.auth_token@ == answer.auth_token@
                &&& after.endpoint@ == self.endpoint@
                &&& after.stage matches Stage::Noting { resp } && resp == answer
                &&& task is Load
            },
            (Stage::Noting { resp }, Report::Loaded { state: Some(s) }) => {
                &&& self.moved_on(after)
                &&& after.stage is Noted
                &&& task matches Task::Save { state }
                &&& state.auth_token@ == resp.auth_token@
                &&& state == (State {
                    auth_token: state.auth_token,
                    auth_token_expires_at: Some(resp.auth_token_expires_at),
                    ..s
                })
            },
            (Stage::Beating, _) => {
                &&& self.moved_on(after)
                &&& after.stage is Recording
                &&& task is Load
            },
            (Stage::Recording, Report::Loaded { state: Some(s) }) => {
                &&& self.moved_on(after)
                &&& after.stage is Due
                &&& task matches Task::Save { state }
                &&& db::chars_of(state.last_endpoint) == Some(self.endpoint@)
                &&& state == (State {
                    last_endpoint: state.last_endpoint,
                    last_handshake_at: Some(moment),
                    ..s
                })
            },
            (Stage::Recording, _) => {
                &&& self.moved_on(after)
                &&& after.stage is Resting
                &&& task matches Task::Rest { span } && span.nanos == 20_000_000_000
            },
            _ => self.beats(after, task),
        }
    }

    fn rest(&mut self) -> (r: Task)
        ensures
            old(self).moved_on(*final(self)),
            final(self).stage is Resting,
            r matches Task::Rest { span } && span.nanos == 20_000_000_000,
    {
        self.stage = Stage::Resting;
        Task::Rest { span: Duration::from_secs(INTERVAL_SECS) }
    }

    fn beat(&mut self) -> (r: Task)
        ensures
            old(self).beats(*final(self), r),
    {
        self.stage = Stage::Beating;
        Task::Beat { token: self.auth_token.clone() }
    }

    /// One move of a round: takes in how the last task went and hands out the next
    /// one. `now` is the time that tokens are held against, `moment` the one that
    /// is noted.
    pub fn advance(&mut self, report: Report, now: i64, moment: i64) -> (r: Task)
        requires
            old(self).fits(report),
            now + GRACE_SECS <= i64::MAX,
        ensures
            old(self).advanced(report, now, moment, *final(self), r),
    {
        let mut stage = Stage::Due;
        std::mem::swap(&mut self.stage, &mut stage);
        match (stage, report) {
            (Stage::Due, _) => self.rest(),
            (Stage::Resting, _) => {
                self.stage = Stage::Checking;
                Task::Load
            },
            (Stage::Checking, Report::Loaded { state: Some(s) }) => {
                if is_token_expired_soon(s.auth_token_expires_at, GRACE_SECS, now) {
                    self.stage = Stage::Refreshing;
                    Task::Refresh { token: self.auth_token.clone() }
                } else {
                    self.beat()
                }
            },
            (Stage::Refreshing, Report::Refreshed { resp: Some(answer) }) => {
                self.auth_token = answer.auth_token.clone();
                self.stage = Stage::Noting { resp: answer };
                Task::Load
            },
            (Stage::Noting { resp }, Report::Loaded { state: Some(s) }) => {
                let mut state = s;
                state.take_token(&resp);
                self.stage = Stage::Noted;
                Task::Save { state }
            },
            (Stage::Beating, _) => {
                self.stage = Stage::Recording;
                Task::Load
            },
            (Stage::Recording, Report::Loaded { state: Some(s) }) => {
                let mut state = s;
                state.announced(self.endpoint.as_str(), moment);
                Task::Save { state }
            },
            (Stage::Recording, _) => self.rest(),
            _ => self.beat(),
        }
    }
}

/// Once the state is loaded after a rest, the token is exchanged exactly where it ends
/// within a minute, has ended, or is not known to end; otherwise, and where the state
/// could not be loaded, the heartbeat is sent with the token that there is.
pub proof fn law_when_a_token_is_exchanged(
    h: Heartbeats,
    state: Option<State>,
    now: i64,
    moment: i64,
    after: Heartbeats,
    task: Task,
)
    requires
        h.stage is Checking,
        h.advanced(Report::Loaded { state }, now, moment, after, task),
    ensures
        after.auth_token@ == h.auth_token@,
        match state {
            Some(s) => match s.auth_token_expires_at {
                Some(t) => if t <= now + 60 {
                    task matches Task::Refresh { token } && token@ == h.auth_token@
                } else {
                    task matches Task::Beat { token } && token@ == h.auth_token@
                },
                None => task matches Task::Refresh { token } && token@ == h.auth_token@,
            },
            None => task matches Task::Beat { token } && token@ == h.auth_token@,
        },
{
}

/// The token changes only where the server gave a new one, and is then that one.
pub proof fn law_new_token_is_used(
    h: Heartbeats,
    report: Report,
    now: i64,
    moment: i64,
    after: Heartbeats,
    task: Task,
)
    requires
        h.fits(report),
        h.advanced(report, now, moment, after, task),
    ensures
        after.endpoint@ == h.endpoint@,
        after.auth_token@ == match (h.stage, report) {
            (Stage::Refreshing, Report::Refreshed { resp: Some(answer) }) => answer.auth_token@,
            _ => h.auth_token@,
        },
        task matches Task::Beat { token } ==> token@ == after.auth_token@,
        task matches Task::Refresh { token } ==> token@ == h.auth_token@,
{
}

/// How many moves there are at most until the heartbeat of a round is sent, and none
/// where it is sent already.
pub open spec fn moves_to_beat(stage: Stage) -> int {
    match stage {
        Stage::Due => 6,
        Stage::Resting => 5,
        Stage::Checking => 4,
        Stage::Refreshing => 3,
        Stage::Noting { .. } => 2,
        Stage::Noted => 1,
        _ => 0,
    }
}

/// After every rest a heartbeat is sent, whatever comes of the token: each move of a
/// round before it brings the heartbeat closer, and there is no other rest before it.
/// Once it is sent, the round ends and the next rest follows.
pub proof fn law_every_round_has_its_heartbeat(
    h: Heartbeats,
    report: Report,
    now: i64,
    moment: i64,
    after: Heartbeats,
    task: Task,
)
    requires
        h.fits(report),
        h.advanced(report, now, moment, after, task),
    ensures
        task is Beat <==> after.stage is Beating,
        moves_to_beat(h.stage) > 0 ==> moves_to_beat(after.stage) < moves_to_beat(h.stage),
        task is Rest ==> h.stage is Due || h.stage is Recording,
        task matches Task::Rest { span } ==> span.nanos == 20_000_000_000 && after.stage is Resting,
        h.stage is Beating ==> after.stage is Recording && task is Load,
        h.stage is Recording ==> after.stage is Due || after.stage is Resting,
{
}

/// What is saved in a round is the state that was loaded, with the new token and its
/// end where the server gave one, or with the endpoint that was announced and the
/// moment.
pub proof fn law_what_a_round_saves(
    h: Heartbeats,
    s: State,
    now: i64,
    moment: i64,
    after: Heartbeats,
    task: Task,
)
    requires
        h.stage is Noting || h.stage is Recording,
        h.advanced(Report::Loaded { state: Some(s) }, now, moment, after, task),
    ensures
        task matches Task::Save { state } && {
            &&& state.node_id == s.node_id
            &&& state.ip == s.ip
            &&& state.known_peers == s.known_peers
            &&& match h.stage {
                Stage::Noting { resp } => {
                    &&& state.auth_token@ == resp.auth_token@
                    &&& state.auth_token_expires_at == Some(resp.auth_token_expires_at)
                    &&& state.last_endpoint == s.last_endpoint
                    &&& state.last_handshake_at == s.last_handshake_at
                },
                _ => {
                    &&& state.auth_token == s.auth_token
                    &&& state.auth_token_expires_at == s.auth_token_expires_at
                    &&& state.last_endpoint matches Some(t) && t@ == h.endpoint@
                    &&& state.last_handshake_at == Some(moment)
                },
            }
        },
{
}

} // verus!
