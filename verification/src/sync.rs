use crate::config::{
    parse_text, peer_endpoint, render_text, set_peer_entries, SectionModel, WireguardConfig,
};
use crate::endpoint::{extract_domain, extract_domain_spec, manifest_url, url_of};
use crate::manifest::{
    extract_routes, joined_routes, json_object_values, json_wellformed, ManifestError,
};
use vstd::prelude::*;
use vstd::string::*;

verus! {

/// Why an attempt failed; the first failure on the way decides.
#[derive(Debug, PartialEq, Eq, Clone, Copy)]
pub enum SyncError {
    /// The configuration file could not be read.
    ConfigRead,
    /// No Peer section carrying an Endpoint key.
    EndpointMissing,
    /// The endpoint holds no eligible domain name.
    DomainUnresolvable,
    /// Transport failure, or a body that is not JSON.
    Fetch,
    /// A JSON body whose top-level value is not an object.
    Parse,
    /// The merged configuration could not be written back.
    ConfigWrite,
}

/// Where an attempt stands.
#[derive(Debug, PartialEq, Eq, Clone)]
pub enum SyncState {
    Idle,
    /// Waiting for the configuration file to be read.
    Resolving,
    /// Waiting for the manifest body; the loaded configuration is
    /// kept for the merge.
    Fetching { cfg: WireguardConfig },
    /// Waiting for the merged text to be written back.
    Persisting,
    /// Waiting for the unconditional re-apply; the failure recorded
    /// on the way here, if any, decides the terminal state.
    Applying { failure: Option<SyncError> },
    Succeeded,
    Failed { error: SyncError },
}

/// The mathematical value of a `SyncState`.
pub ghost enum SyncStateModel {
    Idle,
    Resolving,
    Fetching { cfg: Seq<SectionModel> },
    Persisting,
    Applying { failure: Option<SyncError> },
    Succeeded,
    Failed { error: SyncError },
}

impl View for SyncState {
    type V = SyncStateModel;

    open spec fn view(&self) -> SyncStateModel {
        match self {
            SyncState::Idle => SyncStateModel::Idle,
            SyncState::Resolving => SyncStateModel::Resolving,
            SyncState::Fetching { cfg } => SyncStateModel::Fetching { cfg: cfg@ },
            SyncState::Persisting => SyncStateModel::Persisting,
            SyncState::Applying { failure } => SyncStateModel::Applying { failure: *failure },
            SyncState::Succeeded => SyncStateModel::Succeeded,
            SyncState::Failed { error } => SyncStateModel::Failed { error: *error },
        }
    }
}

/// What the surrounding loop must do next.
#[derive(Debug, PartialEq, Eq, Clone)]
pub enum SyncAction {
    /// Read the configuration file; reply with ReadDone.
    ReadConfig,
    /// Fetch the manifest at this URL; reply with FetchDone.
    FetchUrl { url: String },
    /// Overwrite the configuration file; reply with WriteDone.
    WriteConfig { contents: String },
    /// Re-apply the configuration file, whatever happened before;
    /// reply with ApplyDone.
    ApplyConfig,
    /// The attempt is over; show success exactly when asked to.
    Report { success: bool },
    /// The event did not belong to the state; nothing to do.
    Nothing,
}

/// The mathematical value of a `SyncAction`.
pub ghost enum SyncActionModel {
    ReadConfig,
    FetchUrl { url: Seq<char> },
    WriteConfig { contents: Seq<char> },
    ApplyConfig,
    Report { success: bool },
    Nothing,
}

impl View for SyncAction {
    type V = SyncActionModel;

    open spec fn view(&self) -> SyncActionModel {
        match self {
            SyncAction::ReadConfig => SyncActionModel::ReadConfig,
            SyncAction::FetchUrl { url } => SyncActionModel::FetchUrl { url: url@ },
            SyncAction::WriteConfig { contents } => SyncActionModel::WriteConfig {
                contents: contents@,
            },
            SyncAction::ApplyConfig => SyncActionModel::ApplyConfig,
            SyncAction::Report { success } => SyncActionModel::Report { success: *success },
            SyncAction::Nothing => SyncActionModel::Nothing,
        }
    }
}

/// What the surrounding loop observed.
#[derive(Debug, PartialEq, Eq, Clone)]
pub enum SyncEvent {
    Start,
    /// The configuration file's text, or None when reading failed.
    ReadDone { text: Option<String> },
    /// The manifest response body, or None on transport failure.
    FetchDone { body: Option<String> },
    WriteDone { ok: bool },
    ApplyDone,
}

/// The mathematical value of a `SyncEvent`.
pub ghost enum SyncEventModel {
    Start,
    ReadDone { text: Option<Seq<char>> },
    FetchDone { body: Option<Seq<char>> },
    WriteDone { ok: bool },
    ApplyDone,
}

impl View for SyncEvent {
    type V = SyncEventModel;

    open spec fn view(&self) -> SyncEventModel {
        match self {
            SyncEvent::Start => SyncEventModel::Start,
            SyncEvent::ReadDone { text } => SyncEventModel::ReadDone {
                text: match text {
                    Option::Some(t) => Option::Some(t@),
                    Option::None => Option::None,
                },
            },
            SyncEvent::FetchDone { body } => SyncEventModel::FetchDone {
                body: match body {
                    Option::Some(b) => Option::Some(b@),
                    Option::None => Option::None,
                },
            },
            SyncEvent::WriteDone { ok } => SyncEventModel::WriteDone { ok: *ok },
            SyncEvent::ApplyDone => SyncEventModel::ApplyDone,
        }
    }
}

/// The resolution done on a freshly read configuration: the manifest
/// URL derived from the first Peer's Endpoint, or the failure.
pub open spec fn resolve_url(cfg: Seq<SectionModel>) -> Result<Seq<char>, SyncError> {
    match peer_endpoint(cfg) {
        Option::None => Result::Err(SyncError::EndpointMissing),
        Option::Some(ep) => match extract_domain_spec(ep) {
            Option::None => Result::Err(SyncError::DomainUnresolvable),
            Option::Some(d) => Result::Ok(url_of(d)),
        },
    }
}

/// The route extraction done on a fetched body.
pub open spec fn routes_of(body: Seq<char>) -> Result<Seq<char>, SyncError> {
    if !json_wellformed(body) {
        Result::Err(SyncError::Fetch)
    } else {
        match json_object_values(body) {
            Option::None => Result::Err(SyncError::Parse),
            Option::Some(vals) => Result::Ok(joined_routes(vals)),
        }
    }
}

/// One transition of an attempt: the next state and the action the
/// loop must take. Any failure on the way to Applying is recorded
/// there, so that the apply step runs once whatever happened; only
/// a run with no recorded failure ends Succeeded.
pub open spec fn sync_step(s: SyncStateModel, e: SyncEventModel) -> (SyncStateModel,
    SyncActionModel,
) {
    match (s, e) {
        (SyncStateModel::Idle, SyncEventModel::Start) => (
            SyncStateModel::Resolving,
            SyncActionModel::ReadConfig,
        ),
        (SyncStateModel::Resolving, SyncEventModel::ReadDone { text }) => match text {
            Option::None => (
                SyncStateModel::Applying { failure: Option::Some(SyncError::ConfigRead) },
                SyncActionModel::ApplyConfig,
            ),
            Option::Some(t) => {
                let cfg = parse_text(t);
                match resolve_url(cfg) {
                    Result::Err(err) => (
                        SyncStateModel::Applying { failure: Option::Some(err) },
                        SyncActionModel::ApplyConfig,
                    ),
                    Result::Ok(url) => (
                        SyncStateModel::Fetching { cfg },
                        SyncActionModel::FetchUrl { url },
                    ),
                }
            },
        },
        (SyncStateModel::Fetching { cfg }, SyncEventModel::FetchDone { body }) => match body {
            Option::None => (
                SyncStateModel::Applying { failure: Option::Some(SyncError::Fetch) },
                SyncActionModel::ApplyConfig,
            ),
            Option::Some(b) => match routes_of(b) {
                Result::Err(err) => (
                    SyncStateModel::Applying { failure: Option::Some(err) },
                    SyncActionModel::ApplyConfig,
                ),
                Result::Ok(ips) => (
                    SyncStateModel::Persisting,
                    SyncActionModel::WriteConfig {
                        contents: render_text(set_peer_entries(cfg, ips)),
                    },
                ),
            },
        },
        (SyncStateModel::Persisting, SyncEventModel::WriteDone { ok }) => (
            SyncStateModel::Applying {
                failure: if ok {
                    Option::None
                } else {
                    Option::Some(SyncError::ConfigWrite)
                },
            },
            SyncActionModel::ApplyConfig,
        ),
        (SyncStateModel::Applying { failure }, SyncEventModel::ApplyDone) => match failure {
            Option::None => (SyncStateModel::Succeeded, SyncActionModel::Report { success: true }),
            Option::Some(err) => (
                SyncStateModel::Failed { error: err },
                SyncActionModel::Report { success: false },
            ),
        },
        (other, _) => (other, SyncActionModel::Nothing),
    }
}

/// A state from which the apply step is still owed.
pub open spec fn before_apply(s: SyncStateModel) -> bool {
    s is Idle || s is Resolving || s is Fetching || s is Persisting
}

/// A finished attempt.
pub open spec fn is_terminal(s: SyncStateModel) -> bool {
    s is Succeeded || s is Failed
}

/// The state after feeding a sequence of events.
pub open spec fn run_states(s0: SyncStateModel, evs: Seq<SyncEventModel>) -> SyncStateModel
    decreases evs.len(),
{
    if evs.len() == 0 {
        s0
    } else {
        run_states(sync_step(s0, evs[0]).0, evs.skip(1))
    }
}

/// How often a run demands the apply action.
pub open spec fn apply_count(s0: SyncStateModel, evs: Seq<SyncEventModel>) -> int
    decreases evs.len(),
{
    if evs.len() == 0 {
        0
    } else {
        (if sync_step(s0, evs[0]).1 is ApplyConfig {
            1int
        } else {
            0int
        }) + apply_count(sync_step(s0, evs[0]).0, evs.skip(1))
    }
}

/// From the apply step on, no run demands a second apply, and a
/// terminal state never moves again.
pub proof fn lemma_no_second_apply(s0: SyncStateModel, evs: Seq<SyncEventModel>)
    requires
        s0 is Applying || is_terminal(s0),
    ensures
        apply_count(s0, evs) == 0,
        is_terminal(s0) ==> run_states(s0, evs) == s0,
        run_states(s0, evs) is Applying || is_terminal(run_states(s0, evs)),
    decreases evs.len(),
{
    if evs.len() > 0 {
        let s1 = sync_step(s0, evs[0]).0;
        let a = sync_step(s0, evs[0]).1;
        assert(!(a is ApplyConfig));
        assert(s1 is Applying || is_terminal(s1));
        lemma_no_second_apply(s1, evs.skip(1));
    }
}

/// Law: an attempt performs the apply step exactly once. Any run
/// from a state still owing the apply demands the apply action once
/// by the time it reaches Applying or a terminal state, and never a
/// second time.
pub proof fn lemma_apply_exactly_once(s0: SyncStateModel, evs: Seq<SyncEventModel>)
    requires
        before_apply(s0),
    ensures
        apply_count(s0, evs) <= 1,
        is_terminal(run_states(s0, evs)) ==> apply_count(s0, evs) == 1,
        run_states(s0, evs) is Applying ==> apply_count(s0, evs) == 1,
        before_apply(run_states(s0, evs)) ==> apply_count(s0, evs) == 0,
    decreases evs.len(),
{
    if evs.len() > 0 {
        let s1 = sync_step(s0, evs[0]).0;
        let a = sync_step(s0, evs[0]).1;
        if s1 is Applying {
            assert(a is ApplyConfig);
            lemma_no_second_apply(s1, evs.skip(1));
        } else {
            assert(before_apply(s1));
            assert(!(a is ApplyConfig));
            lemma_apply_exactly_once(s1, evs.skip(1));
        }
    }
}

/// Law: a failed fetch does not skip the apply step. The transition
/// out of Fetching on a failed fetch demands the apply and records
/// the fetch failure; once the apply is done the attempt ends
/// Failed with that failure; and over any continuation the apply is
/// demanded exactly once.
pub proof fn lemma_unconditional_apply_on_fetch_failure(
    cfg: Seq<SectionModel>,
    rest: Seq<SyncEventModel>,
)
    ensures
        sync_step(
            (SyncStateModel::Fetching { cfg }),
            (SyncEventModel::FetchDone { body: Option::None }),
        ).1 is ApplyConfig,
        sync_step(
            (SyncStateModel::Fetching { cfg }),
            (SyncEventModel::FetchDone { body: Option::None }),
        ).0 == (SyncStateModel::Applying { failure: Option::Some(SyncError::Fetch) }),
        sync_step(
            (SyncStateModel::Applying { failure: Option::Some(SyncError::Fetch) }),
            SyncEventModel::ApplyDone,
        ).0 == (SyncStateModel::Failed { error: SyncError::Fetch }),
        apply_count(
            (SyncStateModel::Fetching { cfg }),
            seq![(SyncEventModel::FetchDone { body: Option::None })] + rest,
        ) == 1,
{
    let e0 = SyncEventModel::FetchDone { body: Option::None };
    let evs = seq![e0] + rest;
    assert(evs[0] == e0);
    assert(evs.skip(1) =~= rest);
    lemma_no_second_apply(sync_step(SyncStateModel::Fetching { cfg }, e0).0, rest);
}

/// One synchronization attempt over a configuration file; the path
/// is handed in at construction and never changes.
pub struct SyncAttempt {
    pub path: String,
    pub state: SyncState,
}

impl SyncAttempt {
    /// A fresh attempt on the given configuration file.
    pub fn new(path: String) -> (r: SyncAttempt)
        ensures
            r.path@ == path@,
            r.state@ is Idle,
    {
        SyncAttempt { path, state: SyncState::Idle }
    }

    /// The configuration file this attempt works on.
    pub fn config_path(&self) -> (r: &String)
        ensures
            r@ == self.path@,
    {
        &self.path
    }

    /// Feed one observed event; the attempt moves along the
    /// transition relation and answers with the next action.
    pub fn step(&mut self, event: SyncEvent) -> (r: SyncAction)
        ensures
            final(self).path == old(self).path,
            (final(self).state@, r@) == sync_step(old(self).state@, event@),
    {
        let mut prev = SyncState::Idle;
        core::mem::swap(&mut prev, &mut self.state);
        match (prev, event) {
            (SyncState::Idle, SyncEvent::Start) => {
                self.state = SyncState::Resolving;
                SyncAction::ReadConfig
            },
            (SyncState::Resolving, SyncEvent::ReadDone { text }) => match text {
                Option::None => {
                    self.state = SyncState::Applying {
                        failure: Some(SyncError::ConfigRead),
                    };
                    SyncAction::ApplyConfig
                },
                Option::Some(t) => {
                    let cfg = WireguardConfig::parse(t.as_str());
                    match cfg.get_peer_endpoint() {
                        Option::None => {
                            self.state = SyncState::Applying {
                                failure: Some(SyncError::EndpointMissing),
                            };
                            SyncAction::ApplyConfig
                        },
                        Option::Some(ep) => match extract_domain(ep.as_str()) {
                            Option::None => {
                                self.state = SyncState::Applying {
                                    failure: Some(SyncError::DomainUnresolvable),
                                };
                                SyncAction::ApplyConfig
                            },
                            Option::Some(d) => {
                                let url = manifest_url(d.as_str());
                                self.state = SyncState::Fetching { cfg };
                                SyncAction::FetchUrl { url }
                            },
                        },
                    }
                },
            },
            (SyncState::Fetching { cfg }, SyncEvent::FetchDone { body }) => match body {
                Option::None => {
                    self.state = SyncState::Applying {
                        failure: Some(SyncError::Fetch),
                    };
                    SyncAction::ApplyConfig
                },
                Option::Some(b) => match extract_routes(b.as_str()) {
                    Result::Err(me) => {
                        let err = match me {
                            ManifestError::NotJson => SyncError::Fetch,
                            ManifestError::NotObject => SyncError::Parse,
                        };
                        self.state = SyncState::Applying { failure: Some(err) };
                        SyncAction::ApplyConfig
                    },
                    Result::Ok(ips) => {
                        let mut cfg2 = cfg;
                        cfg2.set_peer_allowed_ips(ips.as_str());
                        let contents = cfg2.render();
                        self.state = SyncState::Persisting;
                        SyncAction::WriteConfig { contents }
                    },
                },
            },
            (SyncState::Persisting, SyncEvent::WriteDone { ok }) => {
                self.state = SyncState::Applying {
                    failure: if ok {
                        None
                    } else {
                        Some(SyncError::ConfigWrite)
                    },
                };
                SyncAction::ApplyConfig
            },
            (SyncState::Applying { failure }, SyncEvent::ApplyDone) => match failure {
                Option::None => {
                    self.state = SyncState::Succeeded;
                    SyncAction::Report { success: true }
                },
                Option::Some(err) => {
                    self.state = SyncState::Failed { error: err };
                    SyncAction::Report { success: false }
                },
            },
            (st, _) => {
                self.state = st;
                SyncAction::Nothing
            },
        }
    }
}

} // verus!

