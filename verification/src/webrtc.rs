//! The relay's WebRTC bridge: which services exist (as announced by nodes),
//! which streaming sessions are open, how many viewers each has, and where
//! the RTSP client of a session is to connect.
//!
//! The peer connections, media tracks and the tasks that feed them live on
//! the async runtime; this module holds the bookkeeping and the decisions.
use vstd::prelude::*;
use crate::keyed::KeyedList;
use crate::message::{Auth, Service};
use crate::node_shadow::{NodeShadow, NodeShadows};
use crate::text::{chars_equal, chars_of, push_char, push_range};

verus! {

/// A streaming session for one service.
#[derive(Debug)]
pub struct StreamSession {
    pub service_id: String,
    pub subscriber_count: usize,
}

/// Bookkeeping of the WebRTC bridge.
pub struct WebRtcBridge {
    sessions: KeyedList<StreamSession>,
    node_shadows: NodeShadows,
}

/// Why a WebRTC request could not be served.
#[derive(Debug)]
pub enum WebRtcError {
    /// No node announced a service with this id.
    ServiceNotFound(String),
    /// The service is not an RTSP service.
    UnsupportedServiceType(String),
    /// No session is open for this service.
    SessionNotFound(String),
}

/// How a session was obtained.
#[derive(Debug, Clone, Copy, PartialEq, Eq)]
pub enum SessionOrigin {
    /// A session for the service was already open.
    Existing,
    /// A new session was opened; its media pipeline is to be started.
    Created,
}

/// States of an ICE connection.
#[derive(Debug, Clone, Copy, PartialEq, Eq)]
pub enum IceState {
    Unspecified,
    New,
    Checking,
    Connected,
    Completed,
    Disconnected,
    Failed,
    Closed,
}

/// What a change of ICE state calls for.
#[derive(Debug, Clone, Copy, PartialEq, Eq)]
pub enum IceAction {
    /// Wait, then drop the viewer if the connection is still down.
    RecheckLater,
    /// Drop the viewer now.
    DropSubscriber,
    /// Nothing.
    Nothing,
}

/// Where and how the RTSP client of a session connects.
#[derive(Debug)]
pub struct RtspTarget {
    pub host: String,
    pub port: u16,
    pub path: String,
    pub auth: Option<(String, String)>,
}

/// `s` is a service of id `id` announced by some node.
pub open spec fn announced(shadows: Map<Seq<char>, NodeShadow>, id: Seq<char>, s: Service) -> bool {
    exists|n: Seq<char>, j: int|
        shadows.contains_key(n) && 0 <= j < shadows[n].services@.len()
            && #[trigger] shadows[n].services@[j] == s && s.id@ == id
}

/// No node announced a service of id `id`.
pub open spec fn unknown(shadows: Map<Seq<char>, NodeShadow>, id: Seq<char>) -> bool {
    forall|n: Seq<char>, j: int|
        shadows.contains_key(n) && 0 <= j < shadows[n].services@.len() ==> #[trigger] shadows[n].services@[j].id@
            != id
}

/// The subscriber count after one more viewer (the counter wraps).
pub open spec fn count_up(c: usize) -> usize {
    if c == usize::MAX {
        0
    } else {
        (c + 1) as usize
    }
}

/// The subscriber count after one viewer less (the counter wraps).
pub open spec fn count_down(c: usize) -> usize {
    if c == 0 {
        usize::MAX
    } else {
        (c - 1) as usize
    }
}

/// Sessions after one more viewer of session `id`.
pub open spec fn add_view(m: Map<Seq<char>, StreamSession>, id: Seq<char>) -> Map<
    Seq<char>,
    StreamSession,
> {
    m.insert(
        id,
        StreamSession {
            service_id: m[id].service_id,
            subscriber_count: count_up(m[id].subscriber_count),
        },
    )
}

/// Sessions after one viewer less of session `id`, and whether the session
/// was closed.
pub open spec fn remove_view(m: Map<Seq<char>, StreamSession>, id: Seq<char>) -> (
    Map<Seq<char>, StreamSession>,
    bool,
) {
    if m[id].subscriber_count == 1 {
        (m.remove(id), true)
    } else {
        (
            m.insert(
                id,
                StreamSession {
                    service_id: m[id].service_id,
                    subscriber_count: count_down(m[id].subscriber_count),
                },
            ),
            false,
        )
    }
}

/// The path of an RTSP URL: the service's path, with a leading `/` added
/// when it has none.
pub open spec fn rtsp_path(path: Seq<char>) -> Seq<char> {
    if path.len() > 0 && path[0] == '/' {
        path
    } else {
        seq!['/'] + path
    }
}

/// Credentials of a service, as the RTSP client takes them.
pub open spec fn credentials(auth: Option<Auth>) -> Option<(String, String)> {
    match auth {
        Some(Auth::UsernameAndPassword { username, password }) => Some((username, password)),
        None => None,
    }
}

/// The action for a new ICE state.
pub open spec fn ice_action_spec(state: IceState) -> IceAction {
    if state == IceState::Disconnected || state == IceState::Failed {
        IceAction::RecheckLater
    } else if state == IceState::Closed {
        IceAction::DropSubscriber
    } else {
        IceAction::Nothing
    }
}

/// The action for a new ICE state: a lost connection is given time to
/// recover; a closed one loses its viewer at once.
pub fn ice_action(state: IceState) -> (res: IceAction)
    ensures
        res == ice_action_spec(state),
        (res == IceAction::DropSubscriber) == (state == IceState::Closed),
        (res == IceAction::RecheckLater) == (state == IceState::Disconnected || state
            == IceState::Failed),
{
    match state {
        IceState::Disconnected | IceState::Failed => IceAction::RecheckLater,
        IceState::Closed => IceAction::DropSubscriber,
        _ => IceAction::Nothing,
    }
}

/// After the wait: whether the connection is still down, so that its viewer
/// is dropped.
pub fn still_down(state: IceState) -> (res: bool)
    ensures
        res == (state == IceState::Disconnected || state == IceState::Failed),
{
    match state {
        IceState::Disconnected | IceState::Failed => true,
        _ => false,
    }
}

impl WebRtcBridge {
    /// Open sessions, by service id.
    pub closed spec fn sessions(&self) -> Map<Seq<char>, StreamSession> {
        self.sessions@
    }

    /// Announced services, by node id.
    pub closed spec fn shadows(&self) -> Map<Seq<char>, NodeShadow> {
        self.node_shadows@
    }

    /// A bridge with no node and no session.
    pub fn default() -> (res: Self)
        ensures
            res.sessions() == Map::<Seq<char>, StreamSession>::empty(),
            res.shadows() == Map::<Seq<char>, NodeShadow>::empty(),
    {
        Self::new(KeyedList::new())
    }

    /// A bridge knowing the given nodes, with no session.
    pub fn new(node_shadows: NodeShadows) -> (res: Self)
        ensures
            res.sessions() == Map::<Seq<char>, StreamSession>::empty(),
            res.shadows() == node_shadows@,
    {
        WebRtcBridge { sessions: KeyedList::new(), node_shadows }
    }

    /// A service with id `service_id` announced by some node.
    #[verifier::loop_isolation(false)]
    pub fn find_service(&self, service_id: &String) -> (res: Option<Service>)
        ensures
            match res {
                Some(s) => announced(self.shadows(), service_id@, s),
                None => unknown(self.shadows(), service_id@),
            },
    {
        let n = self.node_shadows.len();
        let mut i: usize = 0;
        while i < n
            invariant
                n == self.node_shadows.spec_len(),
                0 <= i <= n,
                forall|k: int, j: int|
                    0 <= k < i && 0 <= j < self.node_shadows.spec_value(k).services@.len()
                        ==> #[trigger] self.node_shadows.spec_value(k).services@[j].id@ != service_id@,
                forall|k: int|
                    0 <= k < self.node_shadows.spec_len() ==> self.node_shadows@.contains_key(
                        #[trigger] self.node_shadows.spec_key(k),
                    ) && self.node_shadows@[self.node_shadows.spec_key(k)]
                        == self.node_shadows.spec_value(k),
                forall|key: Seq<char>|
                    #[trigger] self.node_shadows@.contains_key(key) ==> exists|k: int|
                        0 <= k < self.node_shadows.spec_len() && self.node_shadows.spec_key(k)
                            == key,
            decreases n - i,
        {
            let (_node_id, shadow) = self.node_shadows.entry(i);
            let mut j: usize = 0;
            while j < shadow.services.len()
                invariant
                    0 <= j <= shadow.services@.len(),
                    *shadow == self.node_shadows.spec_value(i as int),
                    forall|m: int| 0 <= m < j ==> #[trigger] shadow.services@[m].id@ != service_id@,
                decreases shadow.services.len() - j,
            {
                if shadow.services[j].id == *service_id {
                    let s = shadow.services[j].clone();
                    proof {
                        let key = self.node_shadows.spec_key(i as int);
                        assert(self.node_shadows@.contains_key(key));
                        assert(self.shadows()[key].services@[j as int] == s);
                    }
                    return Some(s);
                }
                j = j + 1;
            }
            i = i + 1;
        }
        proof {
            assert forall|key: Seq<char>, j: int|
                self.shadows().contains_key(key) && 0 <= j < self.shadows()[key].services@.len()
                    implies #[trigger] self.shadows()[key].services@[j].id@ != service_id@ by {
                let k = choose|k: int|
                    0 <= k < self.node_shadows.spec_len() && self.node_shadows.spec_key(k) == key;
                assert(self.node_shadows.spec_value(k).services@[j].id@ != service_id@);
            }
        }
        None
    }

    /// Opens a session for an announced RTSP service, or finds the one that
    /// is open.
    pub fn create_session(&mut self, service_id: &String) -> (res: Result<
        SessionOrigin,
        WebRtcError,
    >)
        ensures
            final(self).shadows() == old(self).shadows(),
            old(self).sessions().contains_key(service_id@) ==> res == Ok::<
                SessionOrigin,
                WebRtcError,
            >(SessionOrigin::Existing) && final(self).sessions() == old(self).sessions(),
            !old(self).sessions().contains_key(service_id@) ==> match res {
                Ok(o) => o == SessionOrigin::Created && (exists|s: Service|
                    announced(old(self).shadows(), service_id@, s) && s.svc_type@ == "rtsp"@)
                    && final(self).sessions() == old(self).sessions().insert(
                    service_id@,
                    StreamSession { service_id: *service_id, subscriber_count: 0 },
                ),
                Err(WebRtcError::ServiceNotFound(id)) => id == *service_id && unknown(
                    old(self).shadows(),
                    service_id@,
                ) && final(self).sessions() == old(self).sessions(),
                Err(WebRtcError::UnsupportedServiceType(t)) => (exists|s: Service|
                    announced(old(self).shadows(), service_id@, s) && s.svc_type == t) && t@
                    != "rtsp"@ && final(self).sessions() == old(self).sessions(),
                Err(WebRtcError::SessionNotFound(_)) => false,
            },
    {
        if self.sessions.contains_key(service_id) {
            return Ok(SessionOrigin::Existing);
        }
        let service = match self.find_service(service_id) {
            Some(s) => s,
            None => {
                return Err(WebRtcError::ServiceNotFound(service_id.clone()));
            },
        };
        let ty = chars_of(service.svc_type.as_str());
        if !chars_equal(ty.as_slice(), 0, ty.len(), "rtsp") {
            assert(ty@.subrange(0, ty@.len() as int) =~= service.svc_type@);
            return Err(WebRtcError::UnsupportedServiceType(service.svc_type));
        }
        assert(ty@.subrange(0, ty@.len() as int) =~= service.svc_type@);
        self.sessions.insert(
            service_id.clone(),
            StreamSession { service_id: service_id.clone(), subscriber_count: 0 },
        );
        Ok(SessionOrigin::Created)
    }

    /// One more viewer of a session; `Some(true)` when it is the first one.
    /// `None`, with nothing changed, when no session is open for the service.
    pub fn add_subscriber(&mut self, service_id: &String) -> (res: Option<bool>)
        ensures
            final(self).shadows() == old(self).shadows(),
            match res {
                Some(first) => old(self).sessions().contains_key(service_id@) && first == (old(
                    self,
                ).sessions()[service_id@].subscriber_count == 0) && final(self).sessions()
                    == add_view(old(self).sessions(), service_id@),
                None => !old(self).sessions().contains_key(service_id@) && final(self).sessions()
                    == old(self).sessions(),
            },
    {
        match self.sessions.get(service_id) {
            None => None,
            Some(session) => {
                let old_count = session.subscriber_count;
                let new_count = if old_count == usize::MAX {
                    0
                } else {
                    old_count + 1
                };
                let sid = session.service_id.clone();
                self.sessions.insert(
                    service_id.clone(),
                    StreamSession { service_id: sid, subscriber_count: new_count },
                );
                Some(old_count == 0)
            },
        }
    }

    /// One viewer less; the session is closed when its last viewer leaves.
    /// Returns whether it was closed.
    pub fn remove_subscriber(&mut self, service_id: &String) -> (res: bool)
        ensures
            final(self).shadows() == old(self).shadows(),
            !old(self).sessions().contains_key(service_id@) ==> !res && final(self).sessions()
                == old(self).sessions(),
            old(self).sessions().contains_key(service_id@) ==> (final(self).sessions(), res)
                == remove_view(old(self).sessions(), service_id@),
    {
        match self.sessions.get(service_id) {
            None => false,
            Some(session) => {
                let count = session.subscriber_count;
                if count == 1 {
                    self.sessions.remove(service_id);
                    true
                } else {
                    let new_count = if count == 0 {
                        usize::MAX
                    } else {
                        count - 1
                    };
                    let sid = session.service_id.clone();
                    self.sessions.insert(
                        service_id.clone(),
                        StreamSession { service_id: sid, subscriber_count: new_count },
                    );
                    false
                }
            },
        }
    }

    /// Where the RTSP client of a session is to connect: the service's
    /// address and port, its path with a leading `/`, its credentials.
    pub fn rtsp_target(&self, service_id: &String) -> (res: Result<RtspTarget, WebRtcError>)
        ensures
            match res {
                Ok(t) => exists|s: Service|
                    announced(self.shadows(), service_id@, s) && t.host == s.addr && t.port
                        == s.port && t.path@ == rtsp_path(s.path@) && t.auth == credentials(
                        s.auth,
                    ) && self.sessions().contains_key(service_id@),
                Err(WebRtcError::ServiceNotFound(id)) => id == *service_id && unknown(
                    self.shadows(),
                    service_id@,
                ),
                Err(WebRtcError::SessionNotFound(id)) => id == *service_id
                    && !self.sessions().contains_key(service_id@),
                Err(WebRtcError::UnsupportedServiceType(_)) => false,
            },
    {
        let service = match self.find_service(service_id) {
            Some(s) => s,
            None => {
                return Err(WebRtcError::ServiceNotFound(service_id.clone()));
            },
        };
        if !self.sessions.contains_key(service_id) {
            return Err(WebRtcError::SessionNotFound(service_id.clone()));
        }
        let pc = chars_of(service.path.as_str());
        let path = if pc.len() > 0 && pc[0] == '/' {
            service.path.clone()
        } else {
            let mut p = String::new();
            push_char(&mut p, '/');
            push_range(&mut p, pc.as_slice(), 0, pc.len());
            assert(pc@.subrange(0, pc@.len() as int) =~= pc@);
            assert(p@ =~= seq!['/'] + service.path@);
            p
        };
        let auth = match &service.auth {
            Some(Auth::UsernameAndPassword { username, password }) => Some(
                (username.clone(), password.clone()),
            ),
            None => None,
        };
        Ok(RtspTarget { host: service.addr.clone(), port: service.port, path, auth })
    }

    /// Records the services a node announced, replacing earlier ones.
    pub fn register_services(&mut self, node_id: String, services: Vec<Service>)
        ensures
            final(self).sessions() == old(self).sessions(),
            final(self).shadows() == old(self).shadows().insert(
                node_id@,
                NodeShadow { services },
            ),
    {
        self.node_shadows.insert(node_id, NodeShadow { services });
    }

    /// Forgets the services of a node that disconnected.
    pub fn unregister_node(&mut self, node_id: &String)
        ensures
            final(self).sessions() == old(self).sessions(),
            final(self).shadows() == old(self).shadows().remove(node_id@),
    {
        self.node_shadows.remove(node_id);
    }
}

// ---------------------------------------------------------------------------
// Laws
// ---------------------------------------------------------------------------

/// A service just registered by a node is announced under its id.
pub proof fn lemma_registered_service_announced(
    shadows: Map<Seq<char>, NodeShadow>,
    node_id: Seq<char>,
    services: Vec<Service>,
    j: int,
)
    requires
        0 <= j < services@.len(),
    ensures
        announced(
            shadows.insert(node_id, NodeShadow { services }),
            services@[j].id@,
            services@[j],
        ),
{
    let m = shadows.insert(node_id, NodeShadow { services });
    assert(m.contains_key(node_id) && m[node_id].services@[j] == services@[j]);
}

/// Once a node is unregistered, none of its services can be found through
/// it: what is announced afterwards was announced by another node.
pub proof fn lemma_unregistered_node_forgotten(
    shadows: Map<Seq<char>, NodeShadow>,
    node_id: Seq<char>,
    id: Seq<char>,
    s: Service,
)
    requires
        announced(shadows.remove(node_id), id, s),
    ensures
        exists|n: Seq<char>, j: int|
            n != node_id && shadows.contains_key(n) && 0 <= j < shadows[n].services@.len()
                && #[trigger] shadows[n].services@[j] == s,
{
    let m = shadows.remove(node_id);
    let (n, j) = choose|n: Seq<char>, j: int|
        m.contains_key(n) && 0 <= j < m[n].services@.len() && #[trigger] m[n].services@[j] == s
            && s.id@ == id;
    assert(n != node_id && shadows.contains_key(n) && shadows[n].services@[j] == s);
}

/// `k` more viewers of session `id`.
pub open spec fn adds(m: Map<Seq<char>, StreamSession>, id: Seq<char>, k: nat) -> Map<
    Seq<char>,
    StreamSession,
>
    decreases k,
{
    if k == 0 {
        m
    } else {
        add_view(adds(m, id, (k - 1) as nat), id)
    }
}

/// `k` viewers leaving session `id`: the sessions afterwards and, for each
/// departure, whether it closed the session.
pub open spec fn removes(m: Map<Seq<char>, StreamSession>, id: Seq<char>, k: nat) -> (
    Map<Seq<char>, StreamSession>,
    Seq<bool>,
)
    decreases k,
{
    if k == 0 {
        (m, seq![])
    } else {
        let (m1, closed) = remove_view(m, id);
        let (m2, rest) = removes(m1, id, (k - 1) as nat);
        (m2, seq![closed] + rest)
    }
}

proof fn lemma_adds(m: Map<Seq<char>, StreamSession>, id: Seq<char>, k: nat)
    requires
        m.contains_key(id),
        m[id].subscriber_count == 0,
        k < usize::MAX,
    ensures
        adds(m, id, k) == m.insert(
            id,
            StreamSession { service_id: m[id].service_id, subscriber_count: k as usize },
        ),
    decreases k,
{
    if k == 0 {
        assert(m.insert(id, StreamSession { service_id: m[id].service_id, subscriber_count: 0 })
            =~= m);
    } else {
        lemma_adds(m, id, (k - 1) as nat);
        let prev = adds(m, id, (k - 1) as nat);
        assert(add_view(prev, id) =~= m.insert(
            id,
            StreamSession { service_id: m[id].service_id, subscriber_count: k as usize },
        ));
    }
}

proof fn lemma_removes(m: Map<Seq<char>, StreamSession>, id: Seq<char>, sid: String, c: nat)
    requires
        1 <= c < usize::MAX,
    ensures
        removes(
            m.insert(id, StreamSession { service_id: sid, subscriber_count: c as usize }),
            id,
            c,
        ) == (m.remove(id), Seq::new((c - 1) as nat, |i: int| false).push(true)),
    decreases c,
{
    let mc = m.insert(id, StreamSession { service_id: sid, subscriber_count: c as usize });
    if c == 1 {
        assert(mc.remove(id) =~= m.remove(id));
        assert(Seq::new(0, |i: int| false).push(true) =~= seq![true]);
        assert(removes(m.remove(id), id, 0) == (m.remove(id), Seq::<bool>::empty()));
        assert(seq![true] + Seq::<bool>::empty() =~= seq![true]);
    } else {
        let m1 = mc.insert(
            id,
            StreamSession { service_id: sid, subscriber_count: (c - 1) as usize },
        );
        assert(remove_view(mc, id) == (m1, false));
        assert(m1 =~= m.insert(
            id,
            StreamSession { service_id: sid, subscriber_count: (c - 1) as usize },
        ));
        lemma_removes(m, id, sid, (c - 1) as nat);
        assert(seq![false] + Seq::new((c - 2) as nat, |i: int| false).push(true) =~= Seq::new(
            (c - 1) as nat,
            |i: int| false,
        ).push(true));
    }
}

/// Viewer counting of a session: once `k` viewers have joined a session that
/// had none, letting them leave one by one keeps the session open until the
/// last departure, which closes it and leaves no session behind.
pub proof fn lemma_last_viewer_closes(m: Map<Seq<char>, StreamSession>, id: Seq<char>, k: nat)
    requires
        m.contains_key(id),
        m[id].subscriber_count == 0,
        1 <= k < usize::MAX,
    ensures
        removes(adds(m, id, k), id, k) == (m.remove(id), Seq::new((k - 1) as nat, |i: int| false).push(
            true,
        )),
{
    lemma_adds(m, id, k);
    lemma_removes(m, id, m[id].service_id, k);
}

/// The ICE decision by state: a viewer is dropped at once only when its
/// connection is closed; a disconnected or failed connection is given time
/// to recover; every other state (unspecified, new, checking, connected,
/// completed) calls for nothing.
pub proof fn lemma_ice_decisions(state: IceState)
    ensures
        (ice_action_spec(state) == IceAction::DropSubscriber) == (state == IceState::Closed),
        (ice_action_spec(state) == IceAction::RecheckLater) == (state == IceState::Disconnected
            || state == IceState::Failed),
        (ice_action_spec(state) == IceAction::Nothing) == (state == IceState::Unspecified || state
            == IceState::New || state == IceState::Checking || state == IceState::Connected
            || state == IceState::Completed),
{
}

} // verus!
