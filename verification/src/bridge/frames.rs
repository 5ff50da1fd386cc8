//! Frames of channel state: decoding them, and the sample that stands for one.

use vstd::prelude::*;

use crate::ranked::views;

verus! {

/// A decoded channel-state frame: what the bridge reads of it.
#[derive(Clone, Debug)]
pub struct CsiFrame {
    /// Id of the node that sent it.
    pub node_id: u8,
    /// Signal strength (dBm).
    pub rssi_dbm: i8,
    /// In-phase and quadrature part of each subcarrier.
    pub subcarriers: Vec<(i16, i16)>,
}

impl View for CsiFrame {
    type V = (u8, i8, Seq<(i16, i16)>);

    open spec fn view(&self) -> (u8, i8, Seq<(i16, i16)>) {
        (self.node_id, self.rssi_dbm, self.subcarriers@)
    }
}

/// A byte read as a signed number.
pub open spec fn signed(byte: u8) -> int {
    if byte < 128 {
        byte as int
    } else {
        byte - 256
    }
}

/// Whether the magic number 0xC5110001 stands at a place, low byte first.
pub open spec fn magic_at(bytes: Seq<u8>, i: int) -> bool {
    0 <= i && i + 4 <= bytes.len() && bytes.subrange(i, i + 4) == seq![
        0x01u8,
        0x00u8,
        0x11u8,
        0xC5u8,
    ]
}

/// The number of in-phase and quadrature pairs that a frame header announces:
/// one for each antenna and subcarrier.
pub open spec fn pair_count(bytes: Seq<u8>) -> int {
    bytes[5] * (bytes[6] + 256 * bytes[7])
}

/// The length of a frame: a header of twenty bytes, and two bytes for each pair.
pub open spec fn frame_len(bytes: Seq<u8>) -> int {
    20 + 2 * pair_count(bytes)
}

/// Whether bytes start with a whole frame: the magic number, one to four
/// antennas, at most 256 subcarriers, and all of the pairs.
pub open spec fn starts_frame(bytes: Seq<u8>) -> bool {
    &&& bytes.len() >= 20
    &&& magic_at(bytes, 0)
    &&& 1 <= bytes[5] <= 4
    &&& bytes[6] + 256 * bytes[7] <= 256
    &&& bytes.len() >= frame_len(bytes)
}

/// The content of the frame that bytes start with.
pub open spec fn frame_in(bytes: Seq<u8>) -> (u8, i8, Seq<(i16, i16)>) {
    (
        bytes[4],
        signed(bytes[16]) as i8,
        Seq::new(
            pair_count(bytes) as nat,
            |k: int| (signed(bytes[20 + 2 * k]) as i16, signed(bytes[21 + 2 * k]) as i16),
        ),
    )
}

/// The frames of a datagram, from the left: a whole frame is taken where one
/// starts, and a byte where none does is passed over.
pub open spec fn csi_frames(bytes: Seq<u8>) -> Seq<(u8, i8, Seq<(i16, i16)>)>
    decreases bytes.len(),
{
    if bytes.len() == 0 {
        Seq::empty()
    } else if starts_frame(bytes) {
        proof {
            frames_have_length(bytes);
        }
        seq![frame_in(bytes)] + csi_frames(bytes.skip(frame_len(bytes)))
    } else {
        csi_frames(bytes.skip(1))
    }
}

/// A frame is at least its header.
pub proof fn frames_have_length(bytes: Seq<u8>)
    ensures
        frame_len(bytes) >= 20,
{
    assert(bytes[5] * (bytes[6] + 256 * bytes[7]) >= 0) by (nonlinear_arith);
}

/// Whether a datagram is one frame and nothing else.
pub open spec fn one_frame(datagram: Seq<u8>) -> bool {
    starts_frame(datagram) && datagram.len() == frame_len(datagram)
}

/// Whether a datagram is too short for a frame, or the magic number stands
/// nowhere in it.
pub open spec fn foreign(datagram: Seq<u8>) -> bool {
    datagram.len() < 20 || forall|i: int| !#[trigger] magic_at(datagram, i)
}

/// A datagram that is one frame gives that frame.
pub proof fn one_frame_is_read(datagram: Seq<u8>)
    requires
        one_frame(datagram),
    ensures
        csi_frames(datagram) == seq![frame_in(datagram)],
{
    frames_have_length(datagram);
    assert(datagram.skip(frame_len(datagram)) =~= Seq::empty());
    assert(csi_frames(Seq::empty()) =~= Seq::empty());
    assert(seq![frame_in(datagram)] + Seq::empty() =~= seq![frame_in(datagram)]);
}

/// Other packets are skipped: a datagram that is too short for a frame, or in
/// which the magic number stands nowhere, gives none.
pub proof fn foreign_datagrams_give_nothing(datagram: Seq<u8>)
    requires
        foreign(datagram),
    ensures
        csi_frames(datagram) == Seq::<(u8, i8, Seq<(i16, i16)>)>::empty(),
    decreases datagram.len(),
{
    if datagram.len() > 0 {
        let rest = datagram.skip(1);
        assert(!starts_frame(datagram));
        if datagram.len() >= 20 {
            assert forall|i: int| !#[trigger] magic_at(rest, i) by {
                assert(!magic_at(datagram, i + 1));
                if 0 <= i && i + 4 <= rest.len() {
                    assert(rest.subrange(i, i + 4) =~= datagram.subrange(i + 1, i + 5));
                }
            }
        }
        foreign_datagrams_give_nothing(rest);
    }
}

/// Frames set end to end are each read: behind one frame, the frames of the rest
/// follow.
pub proof fn frames_follow_each_other(head: Seq<u8>, rest: Seq<u8>)
    requires
        one_frame(head),
    ensures
        csi_frames(head + rest) == seq![frame_in(head)] + csi_frames(rest),
{
    let all = head + rest;
    frames_have_length(head);
    assert(all.subrange(0, 4) =~= head.subrange(0, 4));
    assert(starts_frame(all));
    assert(all.skip(frame_len(all)) =~= rest);
    assert(frame_in(all).2 =~= frame_in(head).2);
}

/// What stands before a frame and starts none is passed over.
pub proof fn noise_is_passed_over(datagram: Seq<u8>, n: int)
    requires
        0 <= n <= datagram.len(),
        forall|i: int| 0 <= i < n ==> !starts_frame(#[trigger] datagram.skip(i)),
    ensures
        csi_frames(datagram) == csi_frames(datagram.skip(n)),
    decreases n,
{
    assert(datagram.skip(0) =~= datagram);
    if n > 0 {
        let rest = datagram.skip(1);
        assert(!starts_frame(datagram.skip(0)));
        assert forall|i: int| 0 <= i < n - 1 implies !starts_frame(#[trigger] rest.skip(i)) by {
            assert(rest.skip(i) =~= datagram.skip(i + 1));
        }
        noise_is_passed_over(rest, n - 1);
        assert(rest.skip(n - 1) =~= datagram.skip(n));
    }
}

/// `Esp32CsiParser::parse_stream` of wifi-densepose-hardware: the frames of a
/// datagram, without the number of bytes read and without what the bridge does
/// not read of a frame. It takes a whole frame where one starts, and goes on to
/// the next magic number where none does: no frame starts in between, so that
/// every byte passed over is one at which none starts.
#[verifier::external_body]
pub(crate) fn parse_stream(datagram: &[u8]) -> (r: Vec<CsiFrame>)
    ensures
        views(r@) == csi_frames(datagram@),
{
    let (frames, _) = wifi_densepose_hardware::Esp32CsiParser::parse_stream(datagram);
    frames
        .iter()
        .map(|f| CsiFrame {
            node_id: f.metadata.node_id,
            rssi_dbm: f.metadata.rssi_dbm,
            subcarriers: f.subcarriers.iter().map(|s| (s.i, s.q)).collect(),
        })
        .collect()
}

/// The squared amplitude of a subcarrier.
pub open spec fn power(pair: (i16, i16)) -> int {
    pair.0 * pair.0 + pair.1 * pair.1
}

/// The strongest subcarrier, the last one where several are.
pub open spec fn strongest(pairs: Seq<(i16, i16)>) -> Option<(i16, i16)>
    decreases pairs.len(),
{
    if pairs.len() == 0 {
        None
    } else {
        let rest = strongest(pairs.drop_last());
        if rest is Some && power(rest->0) > power(pairs.last()) {
            rest
        } else {
            Some(pairs.last())
        }
    }
}

/// One time sample of a frame: its subcarriers, whose mean amplitude stands for
/// the frame, and the strongest of them, whose phase does.
#[derive(Clone, Debug)]
pub struct CsiSample {
    /// In-phase and quadrature part of each subcarrier.
    pub subcarriers: Vec<(i16, i16)>,
    /// The strongest subcarrier.
    pub strongest: Option<(i16, i16)>,
}

/// The content of a sample.
#[verifier::ext_equal]
pub struct Sample {
    /// In-phase and quadrature part of each subcarrier.
    pub subcarriers: Seq<(i16, i16)>,
    /// The strongest subcarrier.
    pub strongest: Option<(i16, i16)>,
}

impl View for CsiSample {
    type V = Sample;

    open spec fn view(&self) -> Sample {
        Sample { subcarriers: self.subcarriers@, strongest: self.strongest }
    }
}

/// The sample of a frame.
pub open spec fn sample_of(frame: (u8, i8, Seq<(i16, i16)>)) -> Sample {
    Sample { subcarriers: frame.2, strongest: strongest(frame.2) }
}

/// The squared amplitude of a subcarrier.
fn power_of(pair: (i16, i16)) -> (r: i64)
    ensures
        r == power(pair),
{
    let i: i64 = pair.0 as i64;
    let q: i64 = pair.1 as i64;
    proof {
        assert(0 <= i * i <= 0x4000_0000) by (nonlinear_arith)
            requires
                -0x8000 <= i <= 0x8000,
        ;
        assert(0 <= q * q <= 0x4000_0000) by (nonlinear_arith)
            requires
                -0x8000 <= q <= 0x8000,
        ;
    }
    i * i + q * q
}

/// Reduce a frame to one time sample.
pub fn reduce_frame(frame: &CsiFrame) -> (r: CsiSample)
    ensures
        r@ == sample_of(frame@),
{
    let pairs: &Vec<(i16, i16)> = &frame.subcarriers;
    let mut subcarriers: Vec<(i16, i16)> = Vec::new();
    let mut best: Option<(i16, i16)> = None;
    let mut i: usize = 0;
    while i < pairs.len()
        invariant
            i <= pairs@.len(),
            subcarriers@ == pairs@.take(i as int),
            best == strongest(pairs@.take(i as int)),
        decreases pairs@.len() - i,
    {
        let pair: (i16, i16) = pairs[i];
        assert(pairs@.take(i + 1).drop_last() =~= pairs@.take(i as int));
        subcarriers.push(pair);
        let keeps: bool = match best {
            Some(b) => power_of(b) > power_of(pair),
            None => false,
        };
        if !keeps {
            best = Some(pair);
        }
        i = i + 1;
        assert(subcarriers@ =~= pairs@.take(i as int));
    }
    assert(pairs@.take(i as int) =~= pairs@);
    CsiSample { subcarriers, strongest: best }
}

} // verus!
