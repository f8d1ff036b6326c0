//! The course of an RTSP streaming session: OPTIONS, DESCRIBE, SETUP (over
//! TCP interleaved, else over UDP), PLAY, then streaming.
//!
//! The connection is driven on the async runtime: it performs each action
//! returned by [`RtspStream::stream_step`] (sends a request, finds a free
//! UDP port, starts receiving) and hands back what came of it.
use vstd::prelude::*;
use crate::rtp::{byte_views, parameter_set_packet, parameter_set_packet_spec};
use crate::rtsp::{
    auth_fits, auth_headers, base_url_spec, check_status, control_of, describe_sdp, literal,
    media_view, media_views, parameter_sets, parameter_sets_spec, parse_sdp, parse_sdp_spec,
    video_media_index, MediaView, RtspClient, RtspError, RtspResponse, RtspStep, pairs_view,
    setup_url_spec, base64_standard_encode,
};
use crate::text::{copy_range, decimal, split_on};

verus! {

/// Where a session stands: which answer it waits for, with what it has
/// gathered so far (the SETUP URL, the SDP parameter sets, the ports).
#[derive(Debug)]
pub enum StreamPhase {
    Idle,
    AwaitOptions,
    AwaitDescribe,
    AwaitSetupTcp { setup_url: String, sets: Vec<Vec<u8>> },
    AwaitUdpPort { setup_url: String, sets: Vec<Vec<u8>> },
    AwaitSetupUdp { setup_url: String, sets: Vec<Vec<u8>>, client_port: u16 },
    AwaitPlay { sets: Vec<Vec<u8>>, rtp_port: u16 },
    Streaming,
}

/// What the runtime hands back.
#[derive(Debug)]
pub enum StreamEvent {
    /// Begin the session.
    Start,
    /// The response to the request last sent.
    Response(RtspResponse),
    /// A free UDP port was found.
    UdpPort(u16),
}

/// What the runtime is to do next.
#[derive(Debug)]
pub enum StreamAction {
    /// Send this request (built with [`RtspClient::build_request`]) and
    /// hand back its response.
    Request { method: String, url: String, headers: Vec<(String, String)> },
    /// Find a free UDP port and hand it back.
    FindUdpPort,
    /// Send the parameter-set packet, if any, ahead of the stream; then
    /// receive the stream: interleaved on the connection when `rtp_port` is
    /// 0, else over UDP on `rtp_port`.
    Stream { parameter_packet: Option<Vec<u8>>, rtp_port: u16 },
}

/// A phase taken by its texts and bytes.
pub enum PhaseView {
    Idle,
    AwaitOptions,
    AwaitDescribe,
    AwaitSetupTcp { setup_url: Seq<char>, sets: Seq<Seq<u8>> },
    AwaitUdpPort { setup_url: Seq<char>, sets: Seq<Seq<u8>> },
    AwaitSetupUdp { setup_url: Seq<char>, sets: Seq<Seq<u8>>, client_port: u16 },
    AwaitPlay { sets: Seq<Seq<u8>>, rtp_port: u16 },
    Streaming,
}

/// An action taken by its texts and bytes.
pub enum ActionView {
    Request { method: Seq<char>, url: Seq<char>, headers: Seq<(Seq<char>, Seq<char>)> },
    FindUdpPort,
    Stream { parameter_packet: Option<Seq<u8>>, rtp_port: u16 },
}

/// An RTSP client and where its session stands.
pub struct RtspStream {
    pub client: RtspClient,
    pub phase: StreamPhase,
}

pub open spec fn phase_view(p: StreamPhase) -> PhaseView {
    match p {
        StreamPhase::Idle => PhaseView::Idle,
        StreamPhase::AwaitOptions => PhaseView::AwaitOptions,
        StreamPhase::AwaitDescribe => PhaseView::AwaitDescribe,
        StreamPhase::AwaitSetupTcp { setup_url, sets } => PhaseView::AwaitSetupTcp {
            setup_url: setup_url@,
            sets: byte_views(sets@),
        },
        StreamPhase::AwaitUdpPort { setup_url, sets } => PhaseView::AwaitUdpPort {
            setup_url: setup_url@,
            sets: byte_views(sets@),
        },
        StreamPhase::AwaitSetupUdp { setup_url, sets, client_port } => PhaseView::AwaitSetupUdp {
            setup_url: setup_url@,
            sets: byte_views(sets@),
            client_port,
        },
        StreamPhase::AwaitPlay { sets, rtp_port } => PhaseView::AwaitPlay {
            sets: byte_views(sets@),
            rtp_port,
        },
        StreamPhase::Streaming => PhaseView::Streaming,
    }
}

pub open spec fn action_view(r: Result<StreamAction, RtspError>) -> Result<ActionView, RtspError> {
    match r {
        Ok(StreamAction::Request { method, url, headers }) => Ok(
            ActionView::Request { method: method@, url: url@, headers: pairs_view(headers@) },
        ),
        Ok(StreamAction::FindUdpPort) => Ok(ActionView::FindUdpPort),
        Ok(StreamAction::Stream { parameter_packet, rtp_port }) => Ok(
            ActionView::Stream {
                parameter_packet: match parameter_packet {
                    Some(p) => Some(p@),
                    None => None,
                },
                rtp_port,
            },
        ),
        Err(e) => Err(e),
    }
}

/// A session id taken by its text.
pub open spec fn session_view(s: Option<String>) -> Option<Seq<char>> {
    match s {
        Some(v) => Some(v@),
        None => None,
    }
}

/// The `Session` header for a session id, if any.
pub open spec fn session_headers_of(s: Option<Seq<char>>) -> Seq<(Seq<char>, Seq<char>)> {
    match s {
        Some(v) => seq![("Session"@, v)],
        None => seq![],
    }
}

/// The session after a successful SETUP response: its `Session` header up to
/// the first `;`, when present.
pub open spec fn session_after(s: Option<Seq<char>>, r: RtspResponse) -> Option<Seq<char>> {
    if r.headers@.contains_key("Session"@) {
        Some(split_on(r.headers@["Session"@]@, ';')[0])
    } else {
        s
    }
}

/// Position of the first video description.
pub open spec fn first_video(ms: Seq<MediaView>) -> Option<int>
    decreases ms.len(),
{
    if ms.len() == 0 {
        None
    } else if ms[0].0 == "video"@ {
        Some(0)
    } else {
        match first_video(ms.drop_first()) {
            Some(k) => Some(k + 1),
            None => None,
        }
    }
}

/// The packet sent ahead of the stream: the parameter sets, when there are
/// any.
pub open spec fn packet_for(sets: Seq<Seq<u8>>) -> Option<Seq<u8>> {
    if sets.len() > 0 {
        Some(parameter_set_packet_spec(sets))
    } else {
        None
    }
}

/// The headers of a SETUP over UDP to `port` and the next one.
pub open spec fn udp_headers(port: u16) -> Seq<(Seq<char>, Seq<char>)> {
    seq![
        (
            "Transport"@,
            "RTP/AVP;unicast;client_port="@ + decimal(port as nat) + seq!['-'] + decimal(
                (port + 1) as nat,
            ),
        ),
    ]
}

/// The request that a step sends.
pub open spec fn request(
    method: Seq<char>,
    url: Seq<char>,
    headers: Seq<(Seq<char>, Seq<char>)>,
) -> Result<ActionView, RtspError> {
    Ok(ActionView::Request { method, url, headers })
}

/// One step of a session of client `c`: the phase afterwards, the session id
/// afterwards, and the action (or the error that ends the session; on an
/// error nothing changes).
pub open spec fn stream_step_spec(c: RtspClient, phase: PhaseView, event: StreamEvent) -> (
    PhaseView,
    Option<Seq<char>>,
    Result<ActionView, RtspError>,
) {
    let base = base_url_spec(c.host@, c.port, c.path@);
    let sess = session_view(c.session_id);
    let unexpected = (phase, sess, Err(RtspError::UnexpectedEvent));
    match event {
        StreamEvent::Start => match phase {
            PhaseView::Idle => (
                PhaseView::AwaitOptions,
                sess,
                request("OPTIONS"@, base, auth_headers(c.auth)),
            ),
            _ => unexpected,
        },
        StreamEvent::UdpPort(p) => match phase {
            PhaseView::AwaitUdpPort { setup_url, sets } => (
                PhaseView::AwaitSetupUdp { setup_url, sets, client_port: p },
                sess,
                request("SETUP"@, setup_url, udp_headers(p)),
            ),
            _ => unexpected,
        },
        StreamEvent::Response(r) => {
            let failed = |step: RtspStep|
                (phase, sess, Err(RtspError::StepFailed { step, status_text: r.status_text }));
            match phase {
                PhaseView::AwaitOptions => if r.status_code != 200 {
                    failed(RtspStep::Options)
                } else {
                    (
                        PhaseView::AwaitDescribe,
                        sess,
                        request(
                            "DESCRIBE"@,
                            base,
                            seq![("Accept"@, "application/sdp"@)] + auth_headers(c.auth),
                        ),
                    )
                },
                PhaseView::AwaitDescribe => if r.status_code != 200 {
                    failed(RtspStep::Describe)
                } else {
                    match r.body {
                        None => (phase, sess, Err(RtspError::NoSdpBody)),
                        Some(b) => {
                            let ms = parse_sdp_spec(b@);
                            match first_video(ms) {
                                None => (phase, sess, Err(RtspError::NoVideoStream)),
                                Some(i) => {
                                    let url = setup_url_spec(base, control_of(ms[i].1));
                                    (
                                        PhaseView::AwaitSetupTcp {
                                            setup_url: url,
                                            sets: parameter_sets_spec(ms[i].1),
                                        },
                                        sess,
                                        request(
                                            "SETUP"@,
                                            url,
                                            seq![
                                                (
                                                    "Transport"@,
                                                    "RTP/AVP/TCP;unicast;interleaved=0-1"@,
                                                ),
                                            ] + session_headers_of(sess),
                                        ),
                                    )
                                },
                            }
                        },
                    }
                },
                PhaseView::AwaitSetupTcp { setup_url, sets } => if r.status_code != 200 {
                    (PhaseView::AwaitUdpPort { setup_url, sets }, sess, Ok(ActionView::FindUdpPort))
                } else {
                    let s2 = session_after(sess, r);
                    (
                        PhaseView::AwaitPlay { sets, rtp_port: 0 },
                        s2,
                        request("PLAY"@, base, session_headers_of(s2)),
                    )
                },
                PhaseView::AwaitSetupUdp { setup_url, sets, client_port } => if r.status_code
                    != 200 {
                    failed(RtspStep::Setup)
                } else {
                    let s2 = session_after(sess, r);
                    (
                        PhaseView::AwaitPlay { sets, rtp_port: client_port },
                        s2,
                        request("PLAY"@, base, session_headers_of(s2)),
                    )
                },
                PhaseView::AwaitPlay { sets, rtp_port } => if r.status_code != 200 {
                    failed(RtspStep::Play)
                } else {
                    (
                        PhaseView::Streaming,
                        sess,
                        Ok(ActionView::Stream { parameter_packet: packet_for(sets), rtp_port }),
                    )
                },
                _ => unexpected,
            }
        },
    }
}

proof fn lemma_first_video(ms: Seq<MediaView>, i: int)
    requires
        0 <= i <= ms.len(),
        forall|k: int| 0 <= k < i ==> #[trigger] ms[k].0 != "video"@,
        i < ms.len() ==> ms[i].0 == "video"@,
    ensures
        i < ms.len() ==> first_video(ms) == Some(i),
        i == ms.len() ==> first_video(ms) is None,
    decreases i,
{
    if i > 0 {
        let rest = ms.drop_first();
        assert forall|k: int| 0 <= k < i - 1 implies #[trigger] rest[k].0 != "video"@ by {
            assert(rest[k] == ms[k + 1]);
        }
        if i < ms.len() {
            assert(rest[i - 1] == ms[i]);
        }
        assert(ms[0].0 != "video"@);
        lemma_first_video(rest, i - 1);
    }
}

/// A copy of byte vectors.
fn copy_units(v: &Vec<Vec<u8>>) -> (res: Vec<Vec<u8>>)
    ensures
        byte_views(res@) == byte_views(v@),
{
    let mut out: Vec<Vec<u8>> = Vec::new();
    let mut i: usize = 0;
    while i < v.len()
        invariant
            0 <= i <= v@.len(),
            out@.len() == i,
            forall|k: int| 0 <= k < i ==> #[trigger] out@[k]@ == v@[k]@,
        decreases v.len() - i,
    {
        let c = copy_range(v[i].as_slice(), 0, v[i].len());
        assert(v@[i as int]@.subrange(0, v@[i as int]@.len() as int) =~= v@[i as int]@);
        out.push(c);
        i = i + 1;
    }
    assert(byte_views(out@) =~= byte_views(v@));
    out
}

impl RtspStream {
    /// A session of `client` that has not begun.
    pub fn new(client: RtspClient) -> (res: Self)
        ensures
            res.client == client,
            res.phase == StreamPhase::Idle,
    {
        RtspStream { client, phase: StreamPhase::Idle }
    }

    /// Takes what came of the last action and decides the next one.
    #[verifier::rlimit(40)]
    pub fn stream_step(&mut self, event: StreamEvent) -> (res: Result<StreamAction, RtspError>)
        requires
            auth_fits(old(self).client.auth),
            event matches StreamEvent::UdpPort(p) ==> p < u16::MAX,
        ensures
            final(self).client.host == old(self).client.host,
            final(self).client.port == old(self).client.port,
            final(self).client.path == old(self).client.path,
            final(self).client.auth == old(self).client.auth,
            final(self).client.cseq == old(self).client.cseq,
            (phase_view(final(self).phase), session_view(final(self).client.session_id), action_view(
                res,
            )) == stream_step_spec(old(self).client, phase_view(old(self).phase), event),
    {
        match event {
            StreamEvent::Start => match self.phase {
                StreamPhase::Idle => {
                    let url = self.client.base_url();
                    let headers = self.client.options_headers();
                    self.phase = StreamPhase::AwaitOptions;
                    Ok(StreamAction::Request { method: literal("OPTIONS"), url, headers })
                },
                _ => Err(RtspError::UnexpectedEvent),
            },
            StreamEvent::UdpPort(p) => match &self.phase {
                StreamPhase::AwaitUdpPort { setup_url, sets } => {
                    let url = setup_url.clone();
                    let sets2 = copy_units(sets);
                    let headers = RtspClient::setup_udp_headers(p);
                    let url2 = url.clone();
                    self.phase = StreamPhase::AwaitSetupUdp { setup_url: url, sets: sets2, client_port: p };
                    Ok(StreamAction::Request { method: literal("SETUP"), url: url2, headers })
                },
                _ => Err(RtspError::UnexpectedEvent),
            },
            StreamEvent::Response(r) => self.on_response(r),
        }
    }

    /// The step for a response.
    #[verifier::rlimit(60)]
    fn on_response(&mut self, r: RtspResponse) -> (res: Result<StreamAction, RtspError>)
        requires
            auth_fits(old(self).client.auth),
        ensures
            final(self).client.host == old(self).client.host,
            final(self).client.port == old(self).client.port,
            final(self).client.path == old(self).client.path,
            final(self).client.auth == old(self).client.auth,
            final(self).client.cseq == old(self).client.cseq,
            (phase_view(final(self).phase), session_view(final(self).client.session_id), action_view(
                res,
            )) == stream_step_spec(
                old(self).client,
                phase_view(old(self).phase),
                StreamEvent::Response(r),
            ),
    {
        match &self.phase {
            StreamPhase::AwaitOptions => {
                check_status(&r, RtspStep::Options)?;
                let url = self.client.base_url();
                let headers = self.client.describe_headers();
                self.phase = StreamPhase::AwaitDescribe;
                Ok(StreamAction::Request { method: literal("DESCRIBE"), url, headers })
            },
            StreamPhase::AwaitDescribe => {
                let sdp = describe_sdp(&r)?;
                let media = match parse_sdp(sdp.as_str()) {
                    Ok(m) => m,
                    Err(e) => {
                        return Err(e);
                    },
                };
                let i = match video_media_index(&media) {
                    Ok(i) => i,
                    Err(e) => {
                        proof {
                            lemma_first_video(media_views(media@), media@.len() as int);
                        }
                        return Err(e);
                    },
                };
                proof {
                    lemma_first_video(media_views(media@), i as int);
                }
                let video = &media[i];
                assert(media_views(media@)[i as int] == media_view(*video));
                let sets = parameter_sets(video);
                let url = self.client.setup_url(video);
                let headers = self.client.setup_tcp_headers();
                let url2 = url.clone();
                self.phase = StreamPhase::AwaitSetupTcp { setup_url: url, sets };
                Ok(StreamAction::Request { method: literal("SETUP"), url: url2, headers })
            },
            StreamPhase::AwaitSetupTcp { setup_url, sets } => {
                let url = setup_url.clone();
                let sets2 = copy_units(sets);
                if r.status_code != 200 {
                    self.phase = StreamPhase::AwaitUdpPort { setup_url: url, sets: sets2 };
                    return Ok(StreamAction::FindUdpPort);
                }
                self.client.record_session(&r);
                let base = self.client.base_url();
                let headers = self.client.play_headers();
                self.phase = StreamPhase::AwaitPlay { sets: sets2, rtp_port: 0 };
                Ok(StreamAction::Request { method: literal("PLAY"), url: base, headers })
            },
            StreamPhase::AwaitSetupUdp { setup_url: _, sets, client_port } => {
                let port = *client_port;
                let sets2 = copy_units(sets);
                check_status(&r, RtspStep::Setup)?;
                self.client.record_session(&r);
                let base = self.client.base_url();
                let headers = self.client.play_headers();
                self.phase = StreamPhase::AwaitPlay { sets: sets2, rtp_port: port };
                Ok(StreamAction::Request { method: literal("PLAY"), url: base, headers })
            },
            StreamPhase::AwaitPlay { sets, rtp_port } => {
                let port = *rtp_port;
                check_status(&r, RtspStep::Play)?;
                let packet = if sets.len() > 0 {
                    Some(parameter_set_packet(sets))
                } else {
                    None
                };
                self.phase = StreamPhase::Streaming;
                Ok(StreamAction::Stream { parameter_packet: packet, rtp_port: port })
            },
            _ => Err(RtspError::UnexpectedEvent),
        }
    }
}

/// The URL of a client's stream, spelled out.
pub open spec fn stream_url(c: RtspClient) -> Seq<char> {
    "rtsp://"@ + c.host@ + seq![':'] + decimal(c.port as nat) + c.path@
}

/// Credentials go with OPTIONS and with DESCRIBE: a session begins with an
/// OPTIONS request to the stream's URL, carrying an `Authorization: Basic`
/// header (base64 of `user:password`) exactly when the client has
/// credentials; a 200 answer leads to a DESCRIBE request to the same URL
/// with `Accept: application/sdp` followed by the same headers as OPTIONS.
pub proof fn lemma_credentials_sent(c: RtspClient, r: RtspResponse)
    requires
        r.status_code == 200,
    ensures
        ({
            let (ph1, s1, a1) = stream_step_spec(c, PhaseView::Idle, StreamEvent::Start);
            let (ph2, s2, a2) = stream_step_spec(
                c,
                PhaseView::AwaitOptions,
                StreamEvent::Response(r),
            );
            &&& ph1 == PhaseView::AwaitOptions
            &&& ph2 == PhaseView::AwaitDescribe
            &&& s1 == session_view(c.session_id) && s2 == session_view(c.session_id)
            &&& a1 matches Ok(ActionView::Request { method: m1, url: u1, headers: h1 })
            &&& a2 matches Ok(ActionView::Request { method: m2, url: u2, headers: h2 })
            &&& m1 == "OPTIONS"@ && m2 == "DESCRIBE"@
            &&& u1 == stream_url(c) && u2 == stream_url(c)
            &&& h2 == seq![("Accept"@, "application/sdp"@)] + h1
            &&& c.auth is None ==> h1 == Seq::<(Seq<char>, Seq<char>)>::empty()
            &&& c.auth matches Some((user, pass)) ==> h1 == seq![
                ("Authorization"@, "Basic "@ + base64_standard_encode(user@ + seq![':'] + pass@)),
            ]
        }),
{
    let (_, _, a1) = stream_step_spec(c, PhaseView::Idle, StreamEvent::Start);
    let (_, _, a2) = stream_step_spec(c, PhaseView::AwaitOptions, StreamEvent::Response(r));
    match (a1, a2) {
        (
            Ok(ActionView::Request { method: m1, url: u1, headers: h1 }),
            Ok(ActionView::Request { method: m2, url: u2, headers: h2 }),
        ) => {
            assert(h2 =~= seq![("Accept"@, "application/sdp"@)] + h1);
        },
        _ => {},
    }
}

/// A step answered with another status than 200 ends the session with that
/// step and the status text, changing nothing, except for SETUP over TCP,
/// which falls back to UDP (next entry).
pub proof fn lemma_refusals(c: RtspClient, phase: PhaseView, r: RtspResponse)
    requires
        r.status_code != 200,
    ensures
        ({
            let (ph, s, a) = stream_step_spec(c, phase, StreamEvent::Response(r));
            let step = match phase {
                PhaseView::AwaitOptions => Some(RtspStep::Options),
                PhaseView::AwaitDescribe => Some(RtspStep::Describe),
                PhaseView::AwaitSetupUdp { .. } => Some(RtspStep::Setup),
                PhaseView::AwaitPlay { .. } => Some(RtspStep::Play),
                _ => None,
            };
            step matches Some(st) ==> ph == phase && s == session_view(c.session_id) && (a matches Err(
                RtspError::StepFailed { step: st2, status_text: t },
            ) && st2 == st && t == r.status_text)
        }),
{
}

/// SETUP over TCP comes first; when it is refused, a free UDP port is asked
/// for, and the SETUP is sent again to the same URL over UDP, to that port
/// and the next one. The parameter sets gathered are kept throughout.
pub proof fn lemma_udp_fallback(
    c: RtspClient,
    url: Seq<char>,
    sets: Seq<Seq<u8>>,
    r: RtspResponse,
    port: u16,
)
    requires
        r.status_code != 200,
    ensures
        ({
            let tcp = PhaseView::AwaitSetupTcp { setup_url: url, sets };
            let (ph1, s1, a1) = stream_step_spec(c, tcp, StreamEvent::Response(r));
            let (ph2, s2, a2) = stream_step_spec(c, ph1, StreamEvent::UdpPort(port));
            &&& a1 == Ok::<ActionView, RtspError>(ActionView::FindUdpPort)
            &&& ph1 == PhaseView::AwaitUdpPort { setup_url: url, sets }
            &&& ph2 == PhaseView::AwaitSetupUdp { setup_url: url, sets, client_port: port }
            &&& s1 == session_view(c.session_id) && s2 == session_view(c.session_id)
            &&& a2 matches Ok(ActionView::Request { method, url: u, headers })
            &&& method == "SETUP"@ && u == url
            &&& headers == seq![
                (
                    "Transport"@,
                    "RTP/AVP;unicast;client_port="@ + decimal(port as nat) + seq!['-'] + decimal(
                        port as nat + 1,
                    ),
                ),
            ]
        }),
{
}

/// An accepted SETUP (over TCP or over UDP) records the session its
/// response names (the `Session` header up to the first `;`) and leads to a
/// PLAY request to the stream's URL carrying that session; the stream is
/// then received interleaved on the connection (port 0) after TCP, or on
/// the client port after UDP.
pub proof fn lemma_play_after_setup(c: RtspClient, phase: PhaseView, r: RtspResponse)
    requires
        r.status_code == 200,
        phase is AwaitSetupTcp || phase is AwaitSetupUdp,
        r.headers@.contains_key("Session"@),
    ensures
        ({
            let (ph, s, a) = stream_step_spec(c, phase, StreamEvent::Response(r));
            let sid = split_on(r.headers@["Session"@]@, ';')[0];
            &&& s == Some(sid)
            &&& a matches Ok(ActionView::Request { method, url, headers })
            &&& method == "PLAY"@ && url == stream_url(c)
            &&& headers == seq![("Session"@, sid)]
            &&& phase matches PhaseView::AwaitSetupTcp { sets, .. } ==> ph == PhaseView::AwaitPlay {
                sets,
                rtp_port: 0,
            }
            &&& phase matches PhaseView::AwaitSetupUdp { sets, client_port, .. } ==> ph
                == PhaseView::AwaitPlay { sets, rtp_port: client_port }
        }),
{
}

/// An accepted PLAY starts the stream on the port chosen at SETUP, with the
/// packet of the SDP parameter sets sent first exactly when there are any.
pub proof fn lemma_stream_after_play(
    c: RtspClient,
    sets: Seq<Seq<u8>>,
    port: u16,
    r: RtspResponse,
)
    requires
        r.status_code == 200,
    ensures
        ({
            let (ph, s, a) = stream_step_spec(
                c,
                PhaseView::AwaitPlay { sets, rtp_port: port },
                StreamEvent::Response(r),
            );
            &&& ph == PhaseView::Streaming
            &&& s == session_view(c.session_id)
            &&& a matches Ok(ActionView::Stream { parameter_packet, rtp_port })
            &&& rtp_port == port
            &&& sets.len() == 0 ==> parameter_packet is None
            &&& sets.len() > 0 ==> parameter_packet == Some(parameter_set_packet_spec(sets))
        }),
{
}

/// A 200 DESCRIBE response with an SDP body leads to a SETUP over TCP of
/// the first video description: to its control URL resolved against the
/// stream's URL, with the session if any; the parameter sets of that
/// description are kept for later.
pub proof fn lemma_setup_first_video(c: RtspClient, r: RtspResponse, b: String, i: int)
    requires
        r.status_code == 200,
        r.body == Some(b),
        0 <= i < parse_sdp_spec(b@).len(),
        parse_sdp_spec(b@)[i].0 == "video"@,
        forall|k: int| 0 <= k < i ==> #[trigger] parse_sdp_spec(b@)[k].0 != "video"@,
    ensures
        ({
            let m = parse_sdp_spec(b@)[i];
            let url = setup_url_spec(stream_url(c), control_of(m.1));
            let (ph, s, a) = stream_step_spec(c, PhaseView::AwaitDescribe, StreamEvent::Response(r));
            &&& ph == PhaseView::AwaitSetupTcp { setup_url: url, sets: parameter_sets_spec(m.1) }
            &&& s == session_view(c.session_id)
            &&& a matches Ok(ActionView::Request { method, url: u, headers })
            &&& method == "SETUP"@ && u == url
            &&& headers[0] == ("Transport"@, "RTP/AVP/TCP;unicast;interleaved=0-1"@)
            &&& c.session_id is None ==> headers.len() == 1
            &&& c.session_id matches Some(sid) ==> headers == seq![
                ("Transport"@, "RTP/AVP/TCP;unicast;interleaved=0-1"@),
                ("Session"@, sid@),
            ]
        }),
{
    lemma_first_video(parse_sdp_spec(b@), i);
    let (_, _, a) = stream_step_spec(c, PhaseView::AwaitDescribe, StreamEvent::Response(r));
    match a {
        Ok(ActionView::Request { method, url: u, headers }) => {
            if c.session_id is Some {
                assert(headers =~= seq![
                    ("Transport"@, "RTP/AVP/TCP;unicast;interleaved=0-1"@),
                    ("Session"@, c.session_id->0@),
                ]);
            }
        },
        _ => {},
    }
}

/// A DESCRIBE answer without a usable SDP ends the session, changing
/// nothing: no body, or no video description in it.
pub proof fn lemma_describe_without_video(c: RtspClient, r: RtspResponse)
    requires
        r.status_code == 200,
    ensures
        ({
            let (ph, s, a) = stream_step_spec(c, PhaseView::AwaitDescribe, StreamEvent::Response(r));
            &&& r.body is None ==> (a matches Err(RtspError::NoSdpBody))
            &&& r.body is Some && (forall|k: int|
                0 <= k < parse_sdp_spec(r.body->0@).len() ==> #[trigger] parse_sdp_spec(
                    r.body->0@,
                )[k].0 != "video"@) ==> (a matches Err(RtspError::NoVideoStream))
            &&& a is Err ==> ph == PhaseView::AwaitDescribe && s == session_view(c.session_id)
        }),
{
    match r.body {
        Some(b) => {
            if forall|k: int|
                0 <= k < parse_sdp_spec(b@).len() ==> #[trigger] parse_sdp_spec(b@)[k].0
                    != "video"@ {
                lemma_first_video(parse_sdp_spec(b@), parse_sdp_spec(b@).len() as int);
            }
        },
        None => {},
    }
}

/// Steps happen in order: a session begins only once, a UDP port is taken
/// only while one is asked for, and a response is taken only while a request
/// is outstanding. Any other event is refused, changing nothing.
pub proof fn lemma_out_of_order_refused(c: RtspClient, phase: PhaseView, event: StreamEvent)
    requires
        (event is Start && !(phase is Idle)) || (event is UdpPort && !(phase is AwaitUdpPort)) || (
        event is Response && (phase is Idle || phase is AwaitUdpPort || phase is Streaming)),
    ensures
        stream_step_spec(c, phase, event) == (phase, session_view(c.session_id), Err::<
            ActionView,
            RtspError,
        >(RtspError::UnexpectedEvent)),
{
}

} // verus!
