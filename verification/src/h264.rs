//! Reassembly of H.264 NAL units from RTP payloads (RFC 6184): single NAL
//! unit packets, STAP-A aggregation packets and FU-A fragmentation units.
use vstd::prelude::*;
use crate::text::extend_range;

verus! {

/// Why a payload could not be depacketized.
#[derive(Debug, Clone, Copy, PartialEq, Eq)]
pub enum DepacketizeError {
    /// An FU-A payload shorter than its two header bytes.
    FuATooShort,
}

/// Reassembles H.264 NAL units; keeps the FU-A fragments seen so far.
pub struct H264Depacketizer {
    fu_buffer: Vec<u8>,
}

/// One depacketized unit of H.264 data.
pub struct H264Frame {
    pub data: Vec<u8>,
}

impl View for H264Depacketizer {
    type V = Seq<u8>;

    /// The FU-A bytes buffered so far.
    closed spec fn view(&self) -> Seq<u8> {
        self.fu_buffer@
    }
}

/// What one `push` yields, with frames taken by their bytes.
pub type PushResult = Result<Option<Seq<u8>>, DepacketizeError>;

/// The NAL unit type held in the low five bits of a header byte.
pub open spec fn nal_type(b: u8) -> int {
    b as int % 32
}

/// The start bit (S) of an FU header.
pub open spec fn fu_start(fu: u8) -> bool {
    fu >= 128
}

/// The end bit (E) of an FU header.
pub open spec fn fu_end(fu: u8) -> bool {
    (fu as int / 64) % 2 == 1
}

/// The NAL header rebuilt from an FU indicator (F and NRI bits) and an FU
/// header (type bits).
pub open spec fn fu_nal_header(indicator: u8, fu: u8) -> u8 {
    ((indicator as int / 32) * 32 + fu as int % 32) as u8
}

/// The Annex B start code.
pub open spec fn start_code() -> Seq<u8> {
    seq![0u8, 0u8, 0u8, 1u8]
}

/// Big-endian 16-bit value at `off`.
pub open spec fn be16_at(p: Seq<u8>, off: int) -> int {
    p[off] as int * 256 + p[off + 1] as int
}

/// The NAL units of a STAP-A payload from `off` on, each behind a start
/// code; parsing stops at the first size field that does not fit.
pub open spec fn stap_a_units(p: Seq<u8>, off: int) -> Seq<u8>
    decreases p.len() - off,
{
    if 0 <= off && off + 2 <= p.len() {
        let size = be16_at(p, off);
        if off + 2 + size <= p.len() {
            start_code() + p.subrange(off + 2, off + 2 + size) + stap_a_units(p, off + 2 + size)
        } else {
            seq![]
        }
    } else {
        seq![]
    }
}

/// One `push`: the buffer afterwards and what is returned.
pub open spec fn push_spec(buf: Seq<u8>, p: Seq<u8>) -> (Seq<u8>, PushResult) {
    if p.len() == 0 {
        (buf, Ok(None))
    } else if 1 <= nal_type(p[0]) <= 23 {
        (buf, Ok(Some(p)))
    } else if nal_type(p[0]) == 24 {
        (buf, Ok(Some(stap_a_units(p, 1))))
    } else if nal_type(p[0]) == 28 {
        if p.len() < 2 {
            (buf, Err(DepacketizeError::FuATooShort))
        } else {
            let fu = p[1];
            let started = if fu_start(fu) {
                seq![fu_nal_header(p[0], fu)]
            } else {
                buf
            };
            let filled = started + p.skip(2);
            if fu_end(fu) {
                (seq![], Ok(Some(filled)))
            } else {
                (filled, Ok(None))
            }
        }
    } else {
        (buf, Ok(None))
    }
}

/// A frame result taken by its bytes.
pub open spec fn frame_bytes(r: Result<Option<H264Frame>, DepacketizeError>) -> PushResult {
    match r {
        Ok(Some(f)) => Ok(Some(f.data@)),
        Ok(None) => Ok(None),
        Err(e) => Err(e),
    }
}

impl H264Depacketizer {
    /// A depacketizer with an empty fragment buffer.
    pub fn new() -> (res: Self)
        ensures
            res@ == Seq::<u8>::empty(),
    {
        Self { fu_buffer: Vec::new() }
    }

    /// Feeds one RTP payload; returns a complete unit when one is available.
    pub fn push(&mut self, payload: &[u8]) -> (res: Result<Option<H264Frame>, DepacketizeError>)
        ensures
            (final(self)@, frame_bytes(res)) == push_spec(old(self)@, payload@),
    {
        if payload.len() == 0 {
            return Ok(None);
        }
        let nalu_header = payload[0];
        let nalu_type = nalu_header & 0x1F;
        assert(nalu_header & 0x1F == nalu_header % 32) by (bit_vector);
        if 1 <= nalu_type && nalu_type <= 23 {
            let mut data: Vec<u8> = Vec::new();
            extend_range(&mut data, payload, 0, payload.len());
            assert(payload@.subrange(0, payload@.len() as int) =~= payload@);
            Ok(Some(H264Frame { data }))
        } else if nalu_type == 24 {
            let mut offset: usize = 1;
            let mut data: Vec<u8> = Vec::new();
            let len = payload.len();
            while len - offset >= 2
                invariant_except_break
                    len == payload@.len(),
                    1 <= offset <= len,
                    stap_a_units(payload@, 1) == data@ + stap_a_units(payload@, offset as int),
                ensures
                    stap_a_units(payload@, 1) == data@,
                decreases len - offset,
            {
                let size = (payload[offset] as usize) * 256 + (payload[offset + 1] as usize);
                let ghost off0 = offset as int;
                offset = offset + 2;
                if size <= len - offset {
                    let ghost before = data@;
                    data.push(0);
                    data.push(0);
                    data.push(0);
                    data.push(1);
                    extend_range(&mut data, payload, offset, offset + size);
                    offset = offset + size;
                    assert(data@ =~= before + start_code() + payload@.subrange(
                        off0 + 2,
                        off0 + 2 + size,
                    ));
                } else {
                    break;
                }
            }
            Ok(Some(H264Frame { data }))
        } else if nalu_type == 28 {
            if payload.len() < 2 {
                return Err(DepacketizeError::FuATooShort);
            }
            let fu_header = payload[1];
            let start_bit = (fu_header & 0x80) != 0;
            let end_bit = (fu_header & 0x40) != 0;
            let fu_type = fu_header & 0x1F;
            let nri = (nalu_header & 0x60) >> 5;
            let f = (nalu_header & 0x80) >> 7;
            assert(((fu_header & 0x80) != 0) == (fu_header >= 128)) by (bit_vector);
            assert(((fu_header & 0x40) != 0) == ((fu_header / 64) % 2 == 1)) by (bit_vector);
            assert((((nalu_header & 0x80) >> 7) << 7) | (((nalu_header & 0x60) >> 5) << 5) | (
            fu_header & 0x1F) == ((nalu_header / 32) * 32 + fu_header % 32) as u8) by (bit_vector);
            if start_bit {
                self.fu_buffer.clear();
                let reconstructed_header = (f << 7) | (nri << 5) | fu_type;
                self.fu_buffer.push(reconstructed_header);
            }
            extend_range(&mut self.fu_buffer, payload, 2, payload.len());
            assert(payload@.subrange(2, payload@.len() as int) =~= payload@.skip(2));
            if end_bit {
                let mut data: Vec<u8> = Vec::new();
                std::mem::swap(&mut data, &mut self.fu_buffer);
                return Ok(Some(H264Frame { data }));
            }
            Ok(None)
        } else {
            Ok(None)
        }
    }
}

// ---------------------------------------------------------------------------
// Laws
// ---------------------------------------------------------------------------

/// Big-endian encoding of a 16-bit size.
pub open spec fn be16(n: nat) -> Seq<u8> {
    seq![(n / 256) as u8, (n % 256) as u8]
}

/// The body of a STAP-A payload carrying `nals`: each unit behind its size.
pub open spec fn stap_a_body(nals: Seq<Seq<u8>>) -> Seq<u8>
    decreases nals.len(),
{
    if nals.len() == 0 {
        seq![]
    } else {
        be16(nals[0].len()) + nals[0] + stap_a_body(nals.drop_first())
    }
}

/// Units in Annex B form: each behind a start code.
pub open spec fn annex_b(nals: Seq<Seq<u8>>) -> Seq<u8>
    decreases nals.len(),
{
    if nals.len() == 0 {
        seq![]
    } else {
        start_code() + nals[0] + annex_b(nals.drop_first())
    }
}

/// Every unit fits a 16-bit size field.
pub open spec fn fits_stap_a(nals: Seq<Seq<u8>>) -> bool {
    forall|i: int| 0 <= i < nals.len() ==> #[trigger] nals[i].len() < 65536
}

/// Successive pushes from buffer `buf`: the final buffer and every result.
pub open spec fn push_all(buf: Seq<u8>, packets: Seq<Seq<u8>>) -> (Seq<u8>, Seq<PushResult>)
    decreases packets.len(),
{
    if packets.len() == 0 {
        (buf, seq![])
    } else {
        let (b1, r) = push_spec(buf, packets[0]);
        let (b2, rs) = push_all(b1, packets.drop_first());
        (b2, seq![r] + rs)
    }
}

/// An FU-A packet: the indicator (type 28) and the FU header at least.
pub open spec fn is_fu_a(p: Seq<u8>) -> bool {
    p.len() >= 2 && nal_type(p[0]) == 28
}

/// FU-A packets that continue a unit: none has the start bit, and only the
/// last has the end bit.
pub open spec fn fu_a_continues(f: Seq<Seq<u8>>) -> bool {
    forall|i: int|
        0 <= i < f.len() ==> is_fu_a(#[trigger] f[i]) && !fu_start(f[i][1]) && (fu_end(f[i][1])
            <==> i == f.len() - 1)
}

/// A unit sent as FU-A packets: a start fragment (start bit, no end bit),
/// then continuations, the last with the end bit.
pub open spec fn fu_a_run(f: Seq<Seq<u8>>) -> bool {
    &&& f.len() >= 2
    &&& is_fu_a(f[0])
    &&& fu_start(f[0][1])
    &&& !fu_end(f[0][1])
    &&& fu_a_continues(f.drop_first())
}

/// The fragment bodies of FU-A packets (each without its two header
/// bytes), one after the other.
pub open spec fn fu_a_payloads(f: Seq<Seq<u8>>) -> Seq<u8>
    decreases f.len(),
{
    if f.len() == 0 {
        seq![]
    } else {
        f[0].skip(2) + fu_a_payloads(f.drop_first())
    }
}

/// `n` results that hold no unit.
pub open spec fn nothing_yet(n: nat) -> Seq<PushResult> {
    Seq::new(n, |i: int| Ok(None))
}

proof fn lemma_stap_a_units_of_body(pre: Seq<u8>, nals: Seq<Seq<u8>>, tail: Seq<u8>)
    requires
        fits_stap_a(nals),
        tail.len() < 2 || tail[0] as int * 256 + tail[1] as int + 2 > tail.len(),
    ensures
        stap_a_units(pre + stap_a_body(nals) + tail, pre.len() as int) == annex_b(nals),
    decreases nals.len(),
{
    let p = pre + stap_a_body(nals) + tail;
    if nals.len() == 0 {
        assert(p =~= pre + tail);
        let off = pre.len() as int;
        if off + 2 <= p.len() {
            assert(p[off] == tail[0]);
            assert(p[off + 1] == tail[1]);
        }
    } else {
        let n0 = nals[0];
        let rest = nals.drop_first();
        assert(n0.len() < 65536);
        let off = pre.len() as int;
        let pre2 = pre + be16(n0.len()) + n0;
        assert(p =~= pre2 + stap_a_body(rest) + tail);
        assert(p[off] == (n0.len() / 256) as u8);
        assert(p[off + 1] == (n0.len() % 256) as u8);
        assert(be16_at(p, off) == n0.len());
        assert(p.subrange(off + 2, off + 2 + n0.len()) =~= n0);
        assert forall|i: int| 0 <= i < rest.len() implies #[trigger] rest[i].len() < 65536 by {
            assert(rest[i] == nals[i + 1]);
        }
        lemma_stap_a_units_of_body(pre2, rest, tail);
        assert(pre2.len() == off + 2 + n0.len());
    }
}

/// An STAP-A payload that aggregates units comes out as those units in
/// Annex B form, and the fragment buffer is left as it was.
pub proof fn lemma_stap_a_roundtrip(buf: Seq<u8>, indicator: u8, nals: Seq<Seq<u8>>)
    requires
        nal_type(indicator) == 24,
        fits_stap_a(nals),
    ensures
        push_spec(buf, seq![indicator] + stap_a_body(nals)) == (buf, Ok::<
            Option<Seq<u8>>,
            DepacketizeError,
        >(Some(annex_b(nals)))),
{
    let p = seq![indicator] + stap_a_body(nals);
    lemma_stap_a_units_of_body(seq![indicator], nals, seq![]);
    assert(p + Seq::<u8>::empty() =~= p);
    assert(p[0] == indicator);
}

/// A STAP-A payload whose last size field announces more bytes than remain
/// (or whose last size field is cut short) yields the complete units before
/// it, and nothing of the rest; the fragment buffer is left as it was.
pub proof fn lemma_stap_a_truncated(buf: Seq<u8>, indicator: u8, nals: Seq<Seq<u8>>, tail: Seq<u8>)
    requires
        nal_type(indicator) == 24,
        fits_stap_a(nals),
        tail.len() < 2 || tail[0] as int * 256 + tail[1] as int + 2 > tail.len(),
    ensures
        push_spec(buf, seq![indicator] + stap_a_body(nals) + tail) == (buf, Ok::<
            Option<Seq<u8>>,
            DepacketizeError,
        >(Some(annex_b(nals)))),
{
    let p = seq![indicator] + stap_a_body(nals) + tail;
    lemma_stap_a_units_of_body(seq![indicator], nals, tail);
    assert(p[0] == indicator);
}

proof fn lemma_fu_a_continuation(acc: Seq<u8>, f: Seq<Seq<u8>>)
    requires
        f.len() >= 1,
        fu_a_continues(f),
    ensures
        push_all(acc, f) == (Seq::<u8>::empty(), nothing_yet((f.len() - 1) as nat).push(
            Ok(Some(acc + fu_a_payloads(f))),
        )),
    decreases f.len(),
{
    let p = f[0];
    assert(is_fu_a(f[0]) && !fu_start(f[0][1]));
    let rest = f.drop_first();
    if f.len() == 1 {
        assert(fu_end(p[1]));
        assert(rest =~= Seq::<Seq<u8>>::empty());
        assert(fu_a_payloads(rest) =~= Seq::<u8>::empty());
        assert(push_all(Seq::<u8>::empty(), rest) == (Seq::<u8>::empty(), Seq::<PushResult>::empty()));
        assert(acc + fu_a_payloads(f) =~= acc + p.skip(2));
        assert(push_all(acc, f).1 =~= nothing_yet(0).push(Ok(Some(acc + fu_a_payloads(f)))));
    } else {
        assert(!fu_end(p[1]));
        assert forall|i: int| 0 <= i < rest.len() implies is_fu_a(#[trigger] rest[i]) && !fu_start(
            rest[i][1],
        ) && (fu_end(rest[i][1]) <==> i == rest.len() - 1) by {
            assert(rest[i] == f[i + 1]);
        }
        let acc2 = acc + p.skip(2);
        lemma_fu_a_continuation(acc2, rest);
        assert(acc2 + fu_a_payloads(rest) =~= acc + fu_a_payloads(f));
        let n = (f.len() - 1) as nat;
        assert(seq![Ok::<Option<Seq<u8>>, DepacketizeError>(None)] + nothing_yet((n - 1) as nat).push(
            Ok(Some(acc + fu_a_payloads(f))),
        ) =~= nothing_yet(n).push(Ok(Some(acc + fu_a_payloads(f)))));
    }
}

/// FU-A reassembly: a unit sent as FU-A packets (a start fragment, then
/// continuations, the last with the end bit; each packet with its own
/// indicator and type bits) comes out whole from the last packet, whatever
/// was buffered before. Its header is rebuilt from the first packet's
/// indicator (F and NRI bits) and FU header (type bits), followed by all
/// fragment bodies in order. No earlier packet yields anything, and the
/// buffer is empty afterwards.
pub proof fn lemma_fu_a_reassembly(buf: Seq<u8>, f: Seq<Seq<u8>>)
    requires
        fu_a_run(f),
    ensures
        push_all(buf, f) == (Seq::<u8>::empty(), nothing_yet((f.len() - 1) as nat).push(
            Ok(Some(seq![fu_nal_header(f[0][0], f[0][1])] + fu_a_payloads(f))),
        )),
{
    let first = f[0];
    let rest = f.drop_first();
    let hdr = fu_nal_header(first[0], first[1]);
    let acc = seq![hdr] + first.skip(2);
    assert(push_spec(buf, first) == (acc, Ok::<Option<Seq<u8>>, DepacketizeError>(None)));
    lemma_fu_a_continuation(acc, rest);
    assert(acc + fu_a_payloads(rest) =~= seq![hdr] + fu_a_payloads(f));
    let n = (f.len() - 1) as nat;
    assert(seq![Ok::<Option<Seq<u8>>, DepacketizeError>(None)] + nothing_yet((n - 1) as nat).push(
        Ok(Some(seq![hdr] + fu_a_payloads(f))),
    ) =~= nothing_yet(n).push(Ok(Some(seq![hdr] + fu_a_payloads(f)))));
}

/// Single NAL unit packets (types 1 to 23, SPS, PPS and SEI among them)
/// come out unchanged, one unit per packet, and the fragment buffer is left
/// as it was.
pub proof fn lemma_single_nal_unit(buf: Seq<u8>, p: Seq<u8>)
    requires
        p.len() > 0,
        1 <= p[0] % 32 <= 23,
    ensures
        push_spec(buf, p) == (buf, Ok::<Option<Seq<u8>>, DepacketizeError>(Some(p))),
{
}

/// Payloads of no supported kind (empty, or of type 0, 25 to 27, 29 to 31)
/// yield nothing and leave the fragment buffer as it was.
pub proof fn lemma_unsupported_ignored(buf: Seq<u8>, p: Seq<u8>)
    requires
        p.len() == 0 || p[0] % 32 == 0 || 25 <= p[0] % 32 <= 27 || p[0] % 32 >= 29,
    ensures
        push_spec(buf, p) == (buf, Ok::<Option<Seq<u8>>, DepacketizeError>(None)),
{
}

/// An FU-A payload without its FU header is refused, and the fragment
/// buffer is left as it was.
pub proof fn lemma_short_fu_a_refused(buf: Seq<u8>, p: Seq<u8>)
    requires
        p.len() == 1,
        p[0] % 32 == 28,
    ensures
        push_spec(buf, p) == (buf, Err::<Option<Seq<u8>>, DepacketizeError>(
            DepacketizeError::FuATooShort,
        )),
{
}

/// An aggregation (STAP-A) payload never touches the fragment buffer, and
/// always yields a unit (empty when it holds no complete unit).
pub proof fn lemma_stap_a_keeps_buffer(buf: Seq<u8>, p: Seq<u8>)
    requires
        p.len() > 0,
        p[0] % 32 == 24,
    ensures
        push_spec(buf, p).0 == buf,
        push_spec(buf, p).1 is Ok,
        push_spec(buf, p).1->Ok_0 is Some,
{
}

/// One FU-A fragment: a start fragment replaces whatever was buffered by the
/// rebuilt header (F and NRI bits of the indicator, type bits of the FU
/// header) and its body; any other fragment appends its body. The unit is
/// returned, and the buffer emptied, exactly on the end fragment.
pub proof fn lemma_fu_a_fragment(buf: Seq<u8>, p: Seq<u8>)
    requires
        p.len() >= 2,
        p[0] % 32 == 28,
    ensures
        ({
            let acc = if p[1] >= 128 {
                seq![((p[0] / 32) * 32 + p[1] % 32) as u8] + p.skip(2)
            } else {
                buf + p.skip(2)
            };
            &&& (p[1] / 64) % 2 == 1 ==> push_spec(buf, p) == (Seq::<u8>::empty(), Ok::<
                Option<Seq<u8>>,
                DepacketizeError,
            >(Some(acc)))
            &&& (p[1] / 64) % 2 == 0 ==> push_spec(buf, p) == (acc, Ok::<
                Option<Seq<u8>>,
                DepacketizeError,
            >(None))
        }),
{
}

} // verus!
