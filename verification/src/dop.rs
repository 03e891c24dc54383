//! DSD-over-PCM (DoP) marker and frame packing.
//!
//! DoP puts two DSD bytes (16 bits) and one marker byte into a 24-bit PCM container.
//! The marker sits in the most significant byte and alternates `0x05` / `0xFA`
//! from frame to frame; the DSD bytes fill the lower 16 bits. A DoP-capable DAC
//! recognises the marker sequence and switches to DSD playback.
//!
//! The PCM sample rate of the container is one sixteenth of the DSD bit rate.

use vstd::prelude::*;

verus! {

/// Marker byte of even-numbered frames.
pub const DOP_MARKER_EVEN: u8 = 0x05;

/// Marker byte of odd-numbered frames.
pub const DOP_MARKER_ODD: u8 = 0xFA;

/// DSD bytes carried by one 24-bit DoP frame (24-bit container minus 8-bit marker).
pub const DOP_DSD_BYTES_PER_FRAME: usize = 2;

/// A DSD generation, held as its bit rate rather than as a fixed list.
#[derive(Debug, Clone, Copy, PartialEq, Eq)]
pub struct DsdFormat {
    /// DSD bit rate in Hz, e.g. 11_289_600 for DSD256.
    pub dsd_bitrate_hz: u32,
}

impl DsdFormat {
    /// DSD64: 2.8224 MHz.
    pub fn dsd64() -> (r: DsdFormat)
        ensures
            r.dsd_bitrate_hz == 2_822_400,
    {
        DsdFormat { dsd_bitrate_hz: 2_822_400 }
    }

    /// DSD128: 5.6448 MHz.
    pub fn dsd128() -> (r: DsdFormat)
        ensures
            r.dsd_bitrate_hz == 5_644_800,
    {
        DsdFormat { dsd_bitrate_hz: 5_644_800 }
    }

    /// DSD256: 11.2896 MHz, the present target quality.
    pub fn dsd256() -> (r: DsdFormat)
        ensures
            r.dsd_bitrate_hz == 11_289_600,
    {
        DsdFormat { dsd_bitrate_hz: 11_289_600 }
    }

    /// DSD512: 22.5792 MHz, twice DSD256; already supported by some DACs.
    pub fn dsd512() -> (r: DsdFormat)
        ensures
            r.dsd_bitrate_hz == 22_579_200,
    {
        DsdFormat { dsd_bitrate_hz: 22_579_200 }
    }

    /// PCM sample rate of the DoP container: one sixteenth of the DSD bit rate.
    pub fn dop_pcm_sample_rate_hz(&self) -> (r: u32)
        ensures
            r == self.dsd_bitrate_hz / 16,
    {
        self.dsd_bitrate_hz / 16
    }
}

/// DoP packing settings. The container width is a parameter; only 24 is supported.
#[derive(Debug, Clone, Copy, PartialEq, Eq)]
pub struct DopConfig {
    pub format: DsdFormat,
    /// Bit depth of the PCM container. Standard DoP uses 24.
    pub container_bits: u32,
}

impl DopConfig {
    /// DSD256 in 24-bit containers.
    pub fn dsd256_24bit() -> (r: Self)
        ensures
            r.format.dsd_bitrate_hz == 11_289_600,
            r.container_bits == 24,
    {
        DopConfig { format: DsdFormat::dsd256(), container_bits: 24 }
    }
}

#[derive(Debug, Clone, Copy, PartialEq, Eq, Structural)]
pub enum DopError {
    /// The DSD byte count is not a multiple of two.
    OddByteLength(usize),
    /// A container width other than 24 bits was asked for.
    UnsupportedContainerBits(u32),
    /// A frame does not carry the marker its position calls for.
    InvalidFrameCount,
}

/// One 24-bit container frame, most significant byte first.
pub type PcmFrame24 = [u8; 3];

/// The marker that frame `i` carries.
pub open spec fn dop_marker(i: int) -> u8 {
    if i % 2 == 0 {
        DOP_MARKER_EVEN
    } else {
        DOP_MARKER_ODD
    }
}

/// The DoP frames of a DSD byte sequence: frame `i` is
/// `[marker(i), bytes[2i], bytes[2i + 1]]`.
pub open spec fn dop_frames_of(dsd: Seq<u8>) -> Seq<PcmFrame24> {
    Seq::new(dsd.len() / 2, |i: int| [dop_marker(i), dsd[2 * i], dsd[2 * i + 1]])
}

/// Every frame carries the marker of its position.
pub open spec fn dop_markers_valid(frames: Seq<PcmFrame24>) -> bool {
    forall|i: int| 0 <= i < frames.len() ==> (#[trigger] frames[i])[0] == dop_marker(i)
}

/// The DSD bytes that a frame sequence carries, two per frame, in order.
pub open spec fn dop_bytes_of(frames: Seq<PcmFrame24>) -> Seq<u8> {
    Seq::new(2 * frames.len(), |k: int| frames[k / 2][1 + k % 2])
}

/// Packs one channel of DSD bytes (eight DSD bits per byte) into DoP frames.
///
/// The byte count must be even, since each frame takes two DSD bytes. Each frame is
/// `[marker, dsd_byte_high, dsd_byte_low]`.
pub fn pack_dop_frames(dsd_bytes: &[u8], config: &DopConfig) -> (r: Result<Vec<PcmFrame24>, DopError>)
    ensures
        config.container_bits != 24 ==> r == Err::<Vec<PcmFrame24>, DopError>(
            DopError::UnsupportedContainerBits(config.container_bits),
        ),
        config.container_bits == 24 && dsd_bytes@.len() % 2 != 0 ==> r == Err::<
            Vec<PcmFrame24>,
            DopError,
        >(DopError::OddByteLength(dsd_bytes@.len() as usize)),
        config.container_bits == 24 && dsd_bytes@.len() % 2 == 0 ==> (r matches Ok(f) && f@
            == dop_frames_of(dsd_bytes@)),
        r matches Ok(f) ==> {
            &&& 2 * f@.len() == dsd_bytes@.len()
            &&& forall|i: int|
                0 <= i < f@.len() ==> (#[trigger] f@[i])[0] == (if i % 2 == 0 {
                    0x05u8
                } else {
                    0xFAu8
                }) && f@[i][1] == dsd_bytes@[2 * i] && f@[i][2] == dsd_bytes@[2 * i + 1]
        },
{
    if config.container_bits != 24 {
        return Err(DopError::UnsupportedContainerBits(config.container_bits));
    }
    if dsd_bytes.len() % DOP_DSD_BYTES_PER_FRAME != 0 {
        return Err(DopError::OddByteLength(dsd_bytes.len()));
    }
    let count = dsd_bytes.len() / DOP_DSD_BYTES_PER_FRAME;
    assert(2 * count <= dsd_bytes.len());
    let mut frames: Vec<PcmFrame24> = Vec::new();
    let mut i: usize = 0;
    while i < count
        invariant
            count == dsd_bytes@.len() / 2,
            dsd_bytes@.len() == 2 * count,
            2 * count <= usize::MAX,
            dsd_bytes@.len() % 2 == 0,
            i <= count,
            frames@ == dop_frames_of(dsd_bytes@).take(i as int),
        decreases count - i,
    {
        let marker = if i % 2 == 0 {
            DOP_MARKER_EVEN
        } else {
            DOP_MARKER_ODD
        };
        frames.push([marker, dsd_bytes[2 * i], dsd_bytes[2 * i + 1]]);
        i += 1;
        assert(frames@ =~= dop_frames_of(dsd_bytes@).take(i as int));
    }
    assert(frames@ =~= dop_frames_of(dsd_bytes@));
    Ok(frames)
}

/// Inverse of [`pack_dop_frames`]: checks the alternating marker sequence and
/// recovers the DSD bytes. A frame whose marker breaks the pattern is an error
/// (corruption, or PCM that is not DoP).
pub fn unpack_dop_frames(frames: &[PcmFrame24]) -> (r: Result<Vec<u8>, DopError>)
    ensures
        dop_markers_valid(frames@) ==> (r matches Ok(b) && b@ == dop_bytes_of(frames@)),
        !dop_markers_valid(frames@) ==> r == Err::<Vec<u8>, DopError>(DopError::InvalidFrameCount),
        r is Ok <==> forall|i: int|
            0 <= i < frames@.len() ==> (#[trigger] frames@[i])[0] == (if i % 2 == 0 {
                0x05u8
            } else {
                0xFAu8
            }),
        r matches Ok(b) ==> {
            &&& b@.len() == 2 * frames@.len()
            &&& forall|i: int|
                0 <= i < frames@.len() ==> b@[2 * i] == (#[trigger] frames@[i])[1] && b@[2 * i + 1]
                    == frames@[i][2]
        },
{
    let mut dsd_bytes: Vec<u8> = Vec::new();
    let mut i: usize = 0;
    while i < frames.len()
        invariant
            i <= frames@.len(),
            forall|j: int| 0 <= j < i ==> (#[trigger] frames@[j])[0] == dop_marker(j),
            dsd_bytes@ == dop_bytes_of(frames@.take(i as int)),
        decreases frames@.len() - i,
    {
        let expected_marker = if i % 2 == 0 {
            DOP_MARKER_EVEN
        } else {
            DOP_MARKER_ODD
        };
        let frame = frames[i];
        if frame[0] != expected_marker {
            assert(!dop_markers_valid(frames@)) by {
                assert(frames@[i as int][0] != dop_marker(i as int));
            }
            return Err(DopError::InvalidFrameCount);
        }
        dsd_bytes.push(frame[1]);
        dsd_bytes.push(frame[2]);
        i += 1;
        assert(dsd_bytes@ =~= dop_bytes_of(frames@.take(i as int)));
    }
    assert(frames@.take(i as int) =~= frames@);
    Ok(dsd_bytes)
}

/// The markers alternate from the first frame on: every even-numbered frame carries
/// 0x05 and every odd-numbered frame 0xFA, whatever the DSD bytes, and each frame
/// carries the next two DSD bytes in order.
pub proof fn lemma_dop_frames_alternate(dsd: Seq<u8>)
    requires
        dsd.len() % 2 == 0,
    ensures
        dop_frames_of(dsd).len() * 2 == dsd.len(),
        forall|i: int|
            0 <= i < dsd.len() / 2 ==> (#[trigger] dop_frames_of(dsd)[i])[0] == (if i % 2 == 0 {
                0x05u8
            } else {
                0xFAu8
            }) && dop_frames_of(dsd)[i][1] == dsd[2 * i] && dop_frames_of(dsd)[i][2] == dsd[2 * i + 1],
{
}

/// A frame sequence is valid DoP exactly when its markers alternate 0x05, 0xFA, 0x05, ...
/// from the first frame on.
pub proof fn lemma_dop_markers_valid_alternate(frames: Seq<PcmFrame24>)
    ensures
        dop_markers_valid(frames) <==> forall|i: int|
            0 <= i < frames.len() ==> (#[trigger] frames[i])[0] == (if i % 2 == 0 {
                0x05u8
            } else {
                0xFAu8
            }),
{
}

/// Packing then unpacking gives back the DSD bytes: for an even-length byte
/// sequence, the packed frames carry valid markers and exactly those bytes.
pub proof fn lemma_dop_pack_unpack(dsd: Seq<u8>)
    requires
        dsd.len() % 2 == 0,
    ensures
        dop_markers_valid(dop_frames_of(dsd)),
        dop_bytes_of(dop_frames_of(dsd)) == dsd,
{
    assert(dop_bytes_of(dop_frames_of(dsd)) =~= dsd);
}

/// Unpacking then packing gives back the frames: a frame sequence with valid
/// markers is exactly the packing of the bytes it carries.
pub proof fn lemma_dop_unpack_pack(frames: Seq<PcmFrame24>)
    requires
        dop_markers_valid(frames),
    ensures
        dop_bytes_of(frames).len() % 2 == 0,
        dop_frames_of(dop_bytes_of(frames)) == frames,
{
    let b = dop_bytes_of(frames);
    assert forall|i: int| 0 <= i < frames.len() implies #[trigger] dop_frames_of(b)[i] == frames[i] by {
        assert(frames[i][0] == dop_marker(i));
        assert(b[2 * i] == frames[i][1]);
        assert(b[2 * i + 1] == frames[i][2]);
        assert(dop_frames_of(b)[i] =~= frames[i]);
    }
    assert(dop_frames_of(b) =~= frames);
}

} // verus!
