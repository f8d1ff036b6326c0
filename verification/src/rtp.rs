//! RTP handling on the relay: RTSP interleaved framing (`$` frames), the
//! ingestion of RTP packets into H.264 samples with their durations, and the
//! packet that carries the SDP parameter sets ahead of the stream.
use vstd::prelude::*;
use crate::h264::{
    annex_b, be16, be16_at, fits_stap_a, fu_a_continues, fu_a_payloads, fu_a_run, fu_nal_header,
    is_fu_a, lemma_stap_a_roundtrip, nal_type, push_spec, stap_a_body, start_code,
    DepacketizeError, H264Depacketizer,
};
use crate::text::{copy_range, extend_range};

verus! {

/// The `$` byte that opens an RTSP interleaved frame.
pub open spec fn dollar() -> u8 {
    36u8
}

/// Big-endian 32-bit value at `off`.
pub open spec fn be32_at(p: Seq<u8>, off: int) -> int {
    p[off] as int * 16777216 + p[off + 1] as int * 65536 + p[off + 2] as int * 256 + p[off + 3] as int
}

/// The RTP packet inside what the RTSP client hands over: the bytes after an
/// interleaved header on an even (RTP) channel, or the bytes as they are.
/// `None` for a truncated interleaved header or an odd (RTCP) channel.
pub open spec fn rtp_packet_of(data: Seq<u8>) -> Option<Seq<u8>> {
    if data.len() > 0 && data[0] == dollar() {
        if data.len() < 4 {
            None
        } else if data[1] as int % 2 != 0 {
            None
        } else {
            Some(data.skip(4))
        }
    } else {
        Some(data)
    }
}

/// Nanoseconds in a 90 kHz RTP clock difference, for plausible differences.
pub open spec fn frame_duration(diff: int) -> int {
    if 0 < diff < 90000 {
        diff * 1_000_000_000 / 90000
    } else {
        33_000_000
    }
}

/// A unit with the duration of the sample it starts, in nanoseconds, and
/// whether it came from an aggregation (STAP-A) packet.
pub type TimedUnit = (Seq<u8>, u64, bool);

/// Whether an RTP payload is an aggregation (STAP-A) packet.
pub open spec fn is_aggregation(payload: Seq<u8>) -> bool {
    payload.len() > 0 && nal_type(payload[0]) == 24
}

/// One ingestion step: (fragment buffer, last timestamp) before and after,
/// and the unit produced, if any.
pub open spec fn ingest_spec(buf: Seq<u8>, last: Option<u32>, data: Seq<u8>) -> (
    Seq<u8>,
    Option<u32>,
    Result<Option<TimedUnit>, DepacketizeError>,
) {
    match rtp_packet_of(data) {
        None => (buf, last, Ok(None)),
        Some(rtp) => if rtp.len() < 12 {
            (buf, last, Ok(None))
        } else {
            let marker = rtp[1] >= 128;
            let ts = be32_at(rtp, 4);
            let agg = is_aggregation(rtp.skip(12));
            let (buf2, r) = push_spec(buf, rtp.skip(12));
            match r {
                Err(e) => (buf2, last, Err(e)),
                Ok(None) => (buf2, last, Ok(None)),
                Ok(Some(unit)) => match last {
                    Some(l) => if marker {
                        let diff = (ts - l as int) % 4294967296;
                        (buf2, Some(ts as u32), Ok(Some((unit, frame_duration(diff) as u64, agg))))
                    } else {
                        (buf2, last, Ok(Some((unit, 0u64, agg))))
                    },
                    None => (buf2, Some(ts as u32), Ok(Some((unit, 0u64, agg)))),
                },
            }
        },
    }
}

/// A depacketized unit and the duration of the sample it starts.
pub struct TimedFrame {
    pub data: Vec<u8>,
    pub duration_nanos: u64,
    /// The unit came from an aggregation (STAP-A) packet, whose units the
    /// depacketizer already put behind start codes.
    pub aggregated: bool,
}

/// Ingestion state of one stream: the depacketizer and the timestamp of the
/// last completed frame.
pub struct RtpIngest {
    depacketizer: H264Depacketizer,
    last_timestamp: Option<u32>,
}

/// A unit result taken by its bytes and duration.
pub open spec fn timed_view(r: Result<Option<TimedFrame>, DepacketizeError>) -> Result<
    Option<TimedUnit>,
    DepacketizeError,
> {
    match r {
        Ok(Some(f)) => Ok(Some((f.data@, f.duration_nanos, f.aggregated))),
        Ok(None) => Ok(None),
        Err(e) => Err(e),
    }
}

impl RtpIngest {
    /// The FU-A bytes buffered so far.
    pub closed spec fn buffered(&self) -> Seq<u8> {
        self.depacketizer@
    }

    /// The timestamp of the last frame that set it.
    pub closed spec fn last_ts(&self) -> Option<u32> {
        self.last_timestamp
    }

    /// A fresh stream: nothing buffered, no timestamp seen.
    pub fn new() -> (res: Self)
        ensures
            res.buffered() == Seq::<u8>::empty(),
            res.last_ts() is None,
    {
        RtpIngest { depacketizer: H264Depacketizer::new(), last_timestamp: None }
    }

    /// Takes one packet from the RTSP client; returns the unit completed by
    /// it, with the duration of the sample it starts.
    pub fn ingest(&mut self, data: &[u8]) -> (res: Result<Option<TimedFrame>, DepacketizeError>)
        ensures
            (final(self).buffered(), final(self).last_ts(), timed_view(res)) == ingest_spec(
                old(self).buffered(),
                old(self).last_ts(),
                data@,
            ),
    {
        let ghost d = data@;
        let rtp_start: usize = if data.len() > 0 && data[0] == 36u8 {
            if data.len() < 4 {
                return Ok(None);
            }
            let channel = data[1];
            if channel % 2 != 0 {
                return Ok(None);
            }
            4
        } else {
            0
        };
        let rtp = copy_range(data, rtp_start, data.len());
        assert(rtp@ =~= rtp_packet_of(d).unwrap());
        if rtp.len() < 12 {
            return Ok(None);
        }
        let marker = rtp[1] >= 128;
        let timestamp: u32 = (rtp[4] as u32) * 16777216 + (rtp[5] as u32) * 65536 + (rtp[6] as u32)
            * 256 + (rtp[7] as u32);
        let payload = copy_range(rtp.as_slice(), 12, rtp.len());
        assert(payload@ =~= rtp@.skip(12));
        let aggregated = payload.len() > 0 && (payload[0] & 0x1F) == 24;
        proof {
            if payload@.len() > 0 {
                let b = payload@[0];
                assert(b & 0x1F == b % 32) by (bit_vector);
            }
        }
        let pushed = self.depacketizer.push(payload.as_slice());
        match pushed {
            Err(e) => Err(e),
            Ok(None) => Ok(None),
            Ok(Some(frame)) => {
                let duration_nanos: u64 = match self.last_timestamp {
                    Some(last_ts) => {
                        if marker {
                            let diff: u32 = if timestamp >= last_ts {
                                timestamp - last_ts
                            } else {
                                ((timestamp as u64 + 4294967296u64) - last_ts as u64) as u32
                            };
                            self.last_timestamp = Some(timestamp);
                            if diff > 0 && diff < 90000 {
                                (diff as u64 * 1_000_000_000) / 90000
                            } else {
                                33_000_000
                            }
                        } else {
                            0
                        }
                    },
                    None => {
                        self.last_timestamp = Some(timestamp);
                        0
                    },
                };
                Ok(Some(TimedFrame { data: frame.data, duration_nanos, aggregated }))
            },
        }
    }
}

/// What is written as a sample: a unit from an aggregation packet as it is
/// (its units already stand behind start codes), any other unit behind a
/// start code.
pub open spec fn sample_bytes(unit: Seq<u8>, aggregated: bool) -> Seq<u8> {
    if aggregated {
        unit
    } else {
        start_code() + unit
    }
}

/// The bytes of the sample for a unit; `None` for an empty unit, which
/// holds no data (a STAP-A without a complete unit, or an FU-A end fragment
/// on an empty buffer) and is not written.
pub fn sample_for(unit: &[u8], aggregated: bool) -> (res: Option<Vec<u8>>)
    ensures
        unit@.len() == 0 <==> res is None,
        res matches Some(v) ==> v@ == sample_bytes(unit@, aggregated),
{
    if unit.len() == 0 {
        return None;
    }
    let mut d: Vec<u8> = Vec::new();
    if !aggregated {
        d.push(0);
        d.push(0);
        d.push(0);
        d.push(1);
    }
    extend_range(&mut d, unit, 0, unit.len());
    assert(unit@.subrange(0, unit@.len() as int) =~= unit@);
    assert(d@ =~= sample_bytes(unit@, aggregated));
    Some(d)
}

// ---------------------------------------------------------------------------
// Parameter sets from the SDP, sent ahead of the stream
// ---------------------------------------------------------------------------

/// The fixed RTP header of the parameter-set packet: version 2, payload type
/// 96, everything else zero.
pub open spec fn parameter_set_header() -> Seq<u8> {
    seq![0x80u8, 96u8, 0u8, 0u8, 0u8, 0u8, 0u8, 0u8, 0u8, 0u8, 0u8, 0u8]
}

/// Each unit behind its size, the size truncated to 16 bits.
pub open spec fn sized_units(nals: Seq<Seq<u8>>) -> Seq<u8>
    decreases nals.len(),
{
    if nals.len() == 0 {
        seq![]
    } else {
        be16((nals[0].len() % 65536) as nat) + nals[0] + sized_units(nals.drop_first())
    }
}

/// The packet carrying the parameter sets as one STAP-A unit.
pub open spec fn parameter_set_packet_spec(nals: Seq<Seq<u8>>) -> Seq<u8> {
    parameter_set_header() + seq![24u8] + sized_units(nals)
}

/// The views of a vector of byte vectors.
pub open spec fn byte_views(v: Seq<Vec<u8>>) -> Seq<Seq<u8>> {
    v.map_values(|x: Vec<u8>| x@)
}

/// The RTP packet that carries the SDP parameter sets (SPS, PPS) as one
/// STAP-A unit.
pub fn parameter_set_packet(nals: &Vec<Vec<u8>>) -> (res: Vec<u8>)
    ensures
        res@ == parameter_set_packet_spec(byte_views(nals@)),
{
    let mut fake_rtp: Vec<u8> = Vec::new();
    fake_rtp.push(0x80);
    fake_rtp.push(96);
    let mut k: usize = 0;
    while k < 10
        invariant
            0 <= k <= 10,
            fake_rtp@ == seq![0x80u8, 96u8] + Seq::new(k as nat, |i: int| 0u8),
        decreases 10 - k,
    {
        fake_rtp.push(0);
        k = k + 1;
        assert(fake_rtp@ =~= seq![0x80u8, 96u8] + Seq::new(k as nat, |i: int| 0u8));
    }
    assert(fake_rtp@ =~= parameter_set_header());
    fake_rtp.push(24);
    let ghost all = byte_views(nals@);
    let mut i: usize = 0;
    assert(all.skip(0) =~= all);
    assert(fake_rtp@ =~= parameter_set_header() + seq![24u8]);
    while i < nals.len()
        invariant
            0 <= i <= nals@.len(),
            all == byte_views(nals@),
            parameter_set_packet_spec(all) == fake_rtp@ + sized_units(all.skip(i as int)),
        decreases nals.len() - i,
    {
        let nal = &nals[i];
        let n = nal.len();
        let size = (n % 65536) as u16;
        fake_rtp.push((size / 256) as u8);
        fake_rtp.push((size % 256) as u8);
        extend_range(&mut fake_rtp, nal.as_slice(), 0, nal.len());
        proof {
            let rest = all.skip(i as int);
            assert(rest[0] == nal@);
            assert(rest.drop_first() =~= all.skip(i + 1));
            assert(nal@.subrange(0, nal@.len() as int) =~= nal@);
        }
        i = i + 1;
    }
    proof {
        assert(all.skip(nals@.len() as int) =~= Seq::<Seq<u8>>::empty());
        assert(fake_rtp@ + sized_units(Seq::<Seq<u8>>::empty()) =~= fake_rtp@);
    }
    fake_rtp
}

// ---------------------------------------------------------------------------
// RTSP interleaved frames
// ---------------------------------------------------------------------------

/// Position of the first `$` in `s`.
pub open spec fn index_of_dollar(s: Seq<u8>) -> Option<int>
    decreases s.len(),
{
    if s.len() == 0 {
        None
    } else if s[0] == dollar() {
        Some(0)
    } else {
        match index_of_dollar(s.drop_first()) {
            Some(k) => Some(k + 1),
            None => None,
        }
    }
}

/// One extraction step on the receive buffer: resynchronise on `$` when the
/// buffer does not start with it, then take one whole frame (the four-byte
/// header and its payload) if it is all there. Returns the buffer afterwards
/// and the frame taken.
pub open spec fn deframe_step(buf: Seq<u8>) -> (Seq<u8>, Option<Seq<u8>>) {
    if buf.len() < 4 {
        (buf, None)
    } else {
        let b = if buf[0] == dollar() {
            buf
        } else {
            match index_of_dollar(buf) {
                Some(pos) => buf.skip(pos),
                None => seq![],
            }
        };
        if b.len() < 4 {
            (b, None)
        } else {
            let n = be16_at(b, 2);
            if b.len() >= 4 + n {
                (b.skip(4 + n), Some(b.take(4 + n)))
            } else {
                (b, None)
            }
        }
    }
}

/// An optional byte vector taken by its bytes.
pub open spec fn opt_bytes(o: Option<Vec<u8>>) -> Option<Seq<u8>> {
    match o {
        Some(v) => Some(v@),
        None => None,
    }
}

/// Splits the byte stream of an RTSP connection in interleaved mode into
/// its `$` frames.
pub struct InterleavedDeframer {
    buf: Vec<u8>,
}

impl View for InterleavedDeframer {
    type V = Seq<u8>;

    /// The bytes received and not yet taken.
    closed spec fn view(&self) -> Seq<u8> {
        self.buf@
    }
}

proof fn lemma_index_of_dollar(s: Seq<u8>)
    ensures
        match index_of_dollar(s) {
            Some(i) => 0 <= i < s.len() && s[i] == dollar() && forall|k: int|
                0 <= k < i ==> s[k] != dollar(),
            None => forall|k: int| 0 <= k < s.len() ==> s[k] != dollar(),
        },
    decreases s.len(),
{
    if s.len() > 0 && s[0] != dollar() {
        lemma_index_of_dollar(s.drop_first());
        assert forall|k: int| 1 <= k < s.len() implies s[k] == s.drop_first()[k - 1] by {}
    }
}

proof fn lemma_index_of_dollar_at(s: Seq<u8>, i: int)
    requires
        0 <= i <= s.len(),
        forall|k: int| 0 <= k < i ==> s[k] != dollar(),
        i < s.len() ==> s[i] == dollar(),
    ensures
        i < s.len() ==> index_of_dollar(s) == Some(i),
        i == s.len() ==> index_of_dollar(s) is None,
{
    lemma_index_of_dollar(s);
}

impl InterleavedDeframer {
    /// An empty receive buffer.
    pub fn new() -> (res: Self)
        ensures
            res@ == Seq::<u8>::empty(),
    {
        InterleavedDeframer { buf: Vec::new() }
    }

    /// Appends bytes read from the connection.
    pub fn push_bytes(&mut self, bytes: &[u8])
        ensures
            final(self)@ == old(self)@ + bytes@,
    {
        extend_range(&mut self.buf, bytes, 0, bytes.len());
        assert(bytes@.subrange(0, bytes@.len() as int) =~= bytes@);
    }

    /// Takes the next whole frame, header included, if the buffer holds one.
    pub fn next_packet(&mut self) -> (res: Option<Vec<u8>>)
        ensures
            (final(self)@, opt_bytes(res)) == deframe_step(old(self)@),
    {
        let ghost b0 = self.buf@;
        if self.buf.len() < 4 {
            return None;
        }
        if self.buf[0] != 36u8 {
            let mut pos: usize = 0;
            while pos < self.buf.len() && self.buf[pos] != 36u8
                invariant
                    self.buf@ == b0,
                    0 <= pos <= b0.len(),
                    forall|k: int| 0 <= k < pos ==> b0[k] != dollar(),
                decreases b0.len() - pos,
            {
                pos = pos + 1;
            }
            proof {
                lemma_index_of_dollar_at(b0, pos as int);
            }
            if pos == self.buf.len() {
                self.buf = Vec::new();
                assert(self.buf@ =~= Seq::<u8>::empty());
                return None;
            }
            self.buf = copy_range(self.buf.as_slice(), pos, self.buf.len());
            assert(self.buf@ =~= b0.skip(pos as int));
            if self.buf.len() < 4 {
                return None;
            }
        }
        let ghost b = self.buf@;
        let n = (self.buf[2] as usize) * 256 + (self.buf[3] as usize);
        if self.buf.len() - 4 >= n {
            let packet = copy_range(self.buf.as_slice(), 0, 4 + n);
            self.buf = copy_range(self.buf.as_slice(), 4 + n, self.buf.len());
            assert(packet@ =~= b.take(4 + n));
            assert(self.buf@ =~= b.skip(4 + n));
            Some(packet)
        } else {
            None
        }
    }
}

// ---------------------------------------------------------------------------
// Laws
// ---------------------------------------------------------------------------

/// An interleaved frame: `$`, the channel, the payload's size, the payload.
pub open spec fn interleaved_frame(channel: u8, payload: Seq<u8>) -> Seq<u8> {
    seq![dollar(), channel] + be16(payload.len()) + payload
}

/// A whole frame at the front of the buffer is taken exactly, and what
/// follows it stays buffered.
pub proof fn lemma_deframe_frame(channel: u8, payload: Seq<u8>, rest: Seq<u8>)
    requires
        payload.len() < 65536,
    ensures
        deframe_step(interleaved_frame(channel, payload) + rest) == (rest, Some(
            interleaved_frame(channel, payload),
        )),
{
    let f = interleaved_frame(channel, payload);
    let buf = f + rest;
    assert(buf[0] == dollar());
    assert(buf[2] == (payload.len() / 256) as u8);
    assert(buf[3] == (payload.len() % 256) as u8);
    assert(be16_at(buf, 2) == payload.len());
    assert(buf.take(4 + payload.len() as int) =~= f);
    assert(buf.skip(4 + payload.len() as int) =~= rest);
}

proof fn lemma_sized_units_fit(nals: Seq<Seq<u8>>)
    requires
        fits_stap_a(nals),
    ensures
        sized_units(nals) == stap_a_body(nals),
    decreases nals.len(),
{
    if nals.len() > 0 {
        assert(nals[0].len() < 65536);
        assert(nals[0].len() % 65536 == nals[0].len());
        assert forall|i: int| 0 <= i < nals.drop_first().len() implies #[trigger] nals.drop_first()[
            i].len() < 65536 by {
            assert(nals.drop_first()[i] == nals[i + 1]);
        }
        lemma_sized_units_fit(nals.drop_first());
    }
}

/// An RTP packet carrying an aggregation (STAP-A) payload yields its units
/// in Annex B form, marked as aggregated, so that the sample written for
/// it is exactly those units: each behind one start code, none doubled.
/// The fragment buffer is left as it was.
pub proof fn lemma_stap_a_sample(
    buf: Seq<u8>,
    last: Option<u32>,
    header: Seq<u8>,
    indicator: u8,
    nals: Seq<Seq<u8>>,
)
    requires
        header.len() == 12,
        header[0] != dollar(),
        nal_type(indicator) == 24,
        fits_stap_a(nals),
    ensures
        ingest_spec(buf, last, header + seq![indicator] + stap_a_body(nals)).0 == buf,
        ingest_spec(buf, last, header + seq![indicator] + stap_a_body(nals)).2 matches Ok(
            Some((unit, _, agg)),
        ) && unit == annex_b(nals) && agg && sample_bytes(unit, agg) == annex_b(nals),
{
    let p = header + seq![indicator] + stap_a_body(nals);
    assert(p[0] == header[0]);
    assert(rtp_packet_of(p) == Some(p));
    assert(p.skip(12) =~= seq![indicator] + stap_a_body(nals));
    lemma_stap_a_roundtrip(buf, indicator, nals);
}

/// The parameter-set packet, ingested as a raw RTP packet, yields exactly
/// the parameter sets in Annex B form, marked as aggregated, so that its
/// sample is those units as they are, with no second start code; the
/// fragment buffer is left as it was.
pub proof fn lemma_parameter_sets_ingested(buf: Seq<u8>, last: Option<u32>, nals: Seq<Seq<u8>>)
    requires
        fits_stap_a(nals),
    ensures
        ingest_spec(buf, last, parameter_set_packet_spec(nals)).0 == buf,
        ingest_spec(buf, last, parameter_set_packet_spec(nals)).2 matches Ok(Some((unit, _, agg)))
            && unit == annex_b(nals) && agg && sample_bytes(unit, agg) == annex_b(nals),
{
    lemma_sized_units_fit(nals);
    assert(parameter_set_packet_spec(nals) =~= parameter_set_header() + seq![24u8] + stap_a_body(
        nals,
    ));
    assert(nal_type(24u8) == 24);
    lemma_stap_a_sample(buf, last, parameter_set_header(), 24u8, nals);
}

/// A unit is marked as aggregated exactly when the RTP payload that
/// completed it is an aggregation (STAP-A) packet; so the sample written
/// for it is the unit as it is for a STAP-A packet, and the unit behind an
/// Annex B start code for any other packet (a single NAL unit, or the end
/// of an FU-A run).
pub proof fn lemma_aggregated_iff_stap_a(buf: Seq<u8>, last: Option<u32>, data: Seq<u8>, rtp: Seq<u8>)
    requires
        rtp_packet_of(data) == Some(rtp),
        rtp.len() > 12,
    ensures
        ingest_spec(buf, last, data).2 matches Ok(Some((unit, _, agg))) ==> {
            &&& agg == (rtp[12] % 32 == 24)
            &&& sample_bytes(unit, agg) == if rtp[12] % 32 == 24 {
                unit
            } else {
                seq![0u8, 0u8, 0u8, 1u8] + unit
            }
        },
{
}

/// RTP packets: each header followed by its payload.
pub open spec fn rtp_packets(headers: Seq<Seq<u8>>, payloads: Seq<Seq<u8>>) -> Seq<Seq<u8>> {
    Seq::new(payloads.len(), |i: int| headers[i] + payloads[i])
}

/// Headers fit for `rtp_packets`: twelve bytes each, not opening with `$`.
pub open spec fn plain_headers(headers: Seq<Seq<u8>>, n: nat) -> bool {
    headers.len() == n && forall|i: int|
        0 <= i < n ==> (#[trigger] headers[i]).len() == 12 && headers[i][0] != dollar()
}

/// Successive ingestion steps: the fragment buffer and last timestamp
/// afterwards, and every result.
pub open spec fn ingest_all(buf: Seq<u8>, last: Option<u32>, datas: Seq<Seq<u8>>) -> (
    Seq<u8>,
    Option<u32>,
    Seq<Result<Option<TimedUnit>, DepacketizeError>>,
)
    decreases datas.len(),
{
    if datas.len() == 0 {
        (buf, last, seq![])
    } else {
        let (b1, l1, r) = ingest_spec(buf, last, datas[0]);
        let (b2, l2, rs) = ingest_all(b1, l1, datas.drop_first());
        (b2, l2, seq![r] + rs)
    }
}

proof fn lemma_ingest_plain(buf: Seq<u8>, last: Option<u32>, h: Seq<u8>, p: Seq<u8>)
    requires
        h.len() == 12,
        h[0] != dollar(),
    ensures
        ingest_spec(buf, last, h + p).0 == push_spec(buf, p).0,
        push_spec(buf, p).1 == Ok::<Option<Seq<u8>>, DepacketizeError>(None) ==> ingest_spec(
            buf,
            last,
            h + p,
        ).2 == Ok::<Option<TimedUnit>, DepacketizeError>(None) && ingest_spec(buf, last, h + p).1
            == last,
        push_spec(buf, p).1 matches Ok(Some(u)) ==> (ingest_spec(buf, last, h + p).2 matches Ok(
            Some((u2, _, agg)),
        ) && u2 == u && agg == is_aggregation(p)),
{
    let d = h + p;
    assert(d[0] == h[0]);
    assert(rtp_packet_of(d) == Some(d));
    assert(d.skip(12) =~= p);
}

proof fn lemma_ingest_continuation(
    acc: Seq<u8>,
    last: Option<u32>,
    hs: Seq<Seq<u8>>,
    f: Seq<Seq<u8>>,
)
    requires
        f.len() >= 1,
        fu_a_continues(f),
        plain_headers(hs, f.len()),
    ensures
        ({
            let (b, _, rs) = ingest_all(acc, last, rtp_packets(hs, f));
            &&& b == Seq::<u8>::empty()
            &&& rs.len() == f.len()
            &&& forall|i: int| 0 <= i < f.len() - 1 ==> #[trigger] rs[i] == Ok::<
                Option<TimedUnit>,
                DepacketizeError,
            >(None)
            &&& rs[f.len() - 1] matches Ok(Some((u, _, agg))) && u == acc + fu_a_payloads(f)
                && !agg
        }),
    decreases f.len(),
{
    let ds = rtp_packets(hs, f);
    let p = f[0];
    assert(is_fu_a(f[0]) && !(f[0][1] >= 128));
    assert(ds[0] == hs[0] + p);
    assert(hs[0].len() == 12 && hs[0][0] != dollar());
    lemma_ingest_plain(acc, last, hs[0], p);
    let (b1, l1, r) = ingest_spec(acc, last, ds[0]);
    let rest = f.drop_first();
    let hrest = hs.drop_first();
    assert(ds.drop_first() =~= rtp_packets(hrest, rest));
    assert(!is_aggregation(p));
    if f.len() == 1 {
        assert((p[1] as int / 64) % 2 == 1);
        assert(rest =~= Seq::<Seq<u8>>::empty());
        assert(fu_a_payloads(rest) =~= Seq::<u8>::empty());
        assert(acc + fu_a_payloads(f) =~= acc + p.skip(2));
        assert(rtp_packets(hrest, rest) =~= Seq::<Seq<u8>>::empty());
        assert(push_spec(acc, p) == (Seq::<u8>::empty(), Ok::<Option<Seq<u8>>, DepacketizeError>(
            Some(acc + p.skip(2)),
        )));
        assert(b1 == Seq::<u8>::empty());
        assert(ingest_all(b1, l1, ds.drop_first()) == (b1, l1, Seq::<
            Result<Option<TimedUnit>, DepacketizeError>,
        >::empty()));
        let rs = seq![r] + Seq::<Result<Option<TimedUnit>, DepacketizeError>>::empty();
        assert(ingest_all(acc, last, ds) == (b1, l1, rs));
        assert(rs[0] == r);
    } else {
        assert((p[1] as int / 64) % 2 == 0);
        assert forall|i: int| 0 <= i < rest.len() implies is_fu_a(#[trigger] rest[i]) && !(
        rest[i][1] >= 128) && (((rest[i][1] as int / 64) % 2 == 1) <==> i == rest.len() - 1) by {
            assert(rest[i] == f[i + 1]);
        }
        assert(fu_a_continues(rest));
        assert forall|i: int| 0 <= i < rest.len() implies (#[trigger] hrest[i]).len() == 12
            && hrest[i][0] != dollar() by {
            assert(hrest[i] == hs[i + 1]);
        }
        let acc2 = acc + p.skip(2);
        assert(b1 == acc2);
        lemma_ingest_continuation(acc2, l1, hrest, rest);
        assert(acc2 + fu_a_payloads(rest) =~= acc + fu_a_payloads(f));
        let (b2, l2, rs2) = ingest_all(b1, l1, rtp_packets(hrest, rest));
        let rs = seq![r] + rs2;
        assert forall|i: int| 0 <= i < f.len() - 1 implies #[trigger] rs[i] == Ok::<
            Option<TimedUnit>,
            DepacketizeError,
        >(None) by {
            if i > 0 {
                assert(rs[i] == rs2[i - 1]);
            }
        }
        assert(rs[f.len() - 1] == rs2[rest.len() - 1]);
        assert(ingest_all(acc, last, ds) == (b2, l2, rs));
    }
}

/// A unit sent as FU-A fragments in RTP packets comes out of ingestion whole
/// from the last packet (its header rebuilt from the first fragment, then all
/// fragment bodies), not marked as aggregated, so its sample is the unit
/// behind an Annex B start code. No earlier packet yields anything, and the
/// fragment buffer is empty afterwards, whatever was buffered before.
pub proof fn lemma_fu_a_run_sample(buf: Seq<u8>, last: Option<u32>, hs: Seq<Seq<u8>>, f: Seq<Seq<u8>>)
    requires
        fu_a_run(f),
        plain_headers(hs, f.len()),
    ensures
        ({
            let (b, _, rs) = ingest_all(buf, last, rtp_packets(hs, f));
            let unit = seq![fu_nal_header(f[0][0], f[0][1])] + fu_a_payloads(f);
            &&& b == Seq::<u8>::empty()
            &&& rs.len() == f.len()
            &&& forall|i: int| 0 <= i < f.len() - 1 ==> #[trigger] rs[i] == Ok::<
                Option<TimedUnit>,
                DepacketizeError,
            >(None)
            &&& rs[f.len() - 1] matches Ok(Some((u, _, agg))) && u == unit && !agg
                && sample_bytes(u, agg) == seq![0u8, 0u8, 0u8, 1u8] + unit
        }),
{
    let ds = rtp_packets(hs, f);
    let first = f[0];
    assert(ds[0] == hs[0] + first);
    lemma_ingest_plain(buf, last, hs[0], first);
    let hdr = fu_nal_header(first[0], first[1]);
    let acc = seq![hdr] + first.skip(2);
    assert(push_spec(buf, first) == (acc, Ok::<Option<Seq<u8>>, DepacketizeError>(None)));
    let (b1, l1, r) = ingest_spec(buf, last, ds[0]);
    let rest = f.drop_first();
    let hrest = hs.drop_first();
    assert(ds.drop_first() =~= rtp_packets(hrest, rest));
    assert forall|i: int| 0 <= i < rest.len() implies (#[trigger] hrest[i]).len() == 12
        && hrest[i][0] != dollar() by {
        assert(hrest[i] == hs[i + 1]);
    }
    lemma_ingest_continuation(acc, l1, hrest, rest);
    assert(acc + fu_a_payloads(rest) =~= seq![hdr] + fu_a_payloads(f));
    let (b2, l2, rs2) = ingest_all(b1, l1, rtp_packets(hrest, rest));
    let rs = seq![r] + rs2;
    assert forall|i: int| 0 <= i < f.len() - 1 implies #[trigger] rs[i] == Ok::<
        Option<TimedUnit>,
        DepacketizeError,
    >(None) by {
        if i > 0 {
            assert(rs[i] == rs2[i - 1]);
        }
    }
    assert(rs[f.len() - 1] == rs2[rest.len() - 1]);
}

/// Packets that carry no RTP for the stream leave everything as it was and
/// yield nothing: an interleaved frame on an odd (RTCP) channel or cut
/// short in its header, and a packet shorter than the RTP header.
pub proof fn lemma_non_rtp_ignored(buf: Seq<u8>, last: Option<u32>, data: Seq<u8>)
    requires
        (data.len() > 0 && data[0] == 36 && (data.len() < 4 || data[1] % 2 == 1)) || (data.len()
            < 12 && (data.len() == 0 || data[0] != 36)) || (data.len() >= 4 && data[0] == 36
            && data[1] % 2 == 0 && data.len() < 16),
    ensures
        ingest_spec(buf, last, data) == (buf, last, Ok::<Option<TimedUnit>, DepacketizeError>(None)),
{
}

/// Sample durations on the 90 kHz clock: the first unit starts a sample of
/// no duration and sets the reference timestamp; later units complete a
/// frame only on a packet with the marker bit, whose duration is the
/// timestamp difference (modulo 2^32) in nanoseconds when it lies strictly
/// between 0 and 90000 ticks, and 33 ms otherwise, the packet's timestamp
/// becoming the reference; units of unmarked packets have no duration and
/// keep the reference.
pub proof fn lemma_durations(buf: Seq<u8>, last: Option<u32>, h: Seq<u8>, p: Seq<u8>)
    requires
        h.len() == 12,
        h[0] != 36,
        push_spec(buf, p).1 is Ok,
        push_spec(buf, p).1->Ok_0 is Some,
    ensures
        ({
            let ts = h[4] as int * 16777216 + h[5] as int * 65536 + h[6] as int * 256 + h[7] as int;
            let (_, l2, r) = ingest_spec(buf, last, h + p);
            &&& r matches Ok(Some((_, d, _)))
            &&& last is None ==> d == 0 && l2 == Some(ts as u32)
            &&& last is Some && h[1] < 128 ==> d == 0 && l2 == last
            &&& last is Some && h[1] >= 128 ==> l2 == Some(ts as u32) && ({
                let diff = (ts - last->0 as int) % 4294967296;
                &&& 0 < diff < 90000 ==> d == diff * 1_000_000_000 / 90000
                &&& !(0 < diff < 90000) ==> d == 33_000_000
            })
        }),
{
    let d = h + p;
    assert(d[0] == h[0]);
    assert(rtp_packet_of(d) == Some(d));
    assert(d.skip(12) =~= p);
    assert(d[1] == h[1] && d[4] == h[4] && d[5] == h[5] && d[6] == h[6] && d[7] == h[7]);
    assert(be32_at(d, 4) == h[4] as int * 16777216 + h[5] as int * 65536 + h[6] as int * 256
        + h[7] as int);
}

} // verus!
