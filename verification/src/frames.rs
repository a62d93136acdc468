use vstd::prelude::*;
use vstd::string::StrSliceExecFns;

verus! {

/// Order of the bytes of each stored reading.
#[derive(Debug, Clone, Copy, PartialEq, Eq, Structural)]
pub enum ByteOrder {
    LittleEndian,
    BigEndian,
}

/// How readings are laid out in a dump file: each frame holds, for every
/// sensor in turn, its axial, radial and circumferential reading, each
/// `bytes_per_sample` bytes wide.
#[derive(Debug, Clone, Copy)]
pub struct FrameLayout {
    pub bytes_per_sample: usize,
    pub num_sensors: usize,
    pub byte_order: ByteOrder,
}

/// One sensor's three raw readings, in microvolts.
#[derive(Debug, Clone, Copy, PartialEq, Eq, Structural)]
pub struct RawSample {
    pub axial: i32,
    pub radial: i32,
    pub circumferential: i32,
}

/// Unsigned value of two bytes, least significant first.
pub open spec fn u16_le(b: Seq<u8>) -> int {
    b[0] + 256 * b[1]
}

/// Unsigned value of two bytes, most significant first.
pub open spec fn u16_be(b: Seq<u8>) -> int {
    256 * b[0] + b[1]
}

/// Unsigned value of four bytes, least significant first.
pub open spec fn u32_le(b: Seq<u8>) -> int {
    b[0] + 256 * b[1] + 65536 * b[2] + 16777216 * b[3]
}

/// Unsigned value of four bytes, most significant first.
pub open spec fn u32_be(b: Seq<u8>) -> int {
    16777216 * b[0] + 65536 * b[1] + 256 * b[2] + b[3]
}

/// Two's-complement reading of a 16-bit pattern.
pub open spec fn signed16(u: int) -> int {
    if u < 32768 {
        u
    } else {
        u - 65536
    }
}

/// Two's-complement reading of a 32-bit pattern.
pub open spec fn signed32(u: int) -> int {
    if u < 2147483648 {
        u
    } else {
        u - 4294967296
    }
}

/// The 32-bit pattern that stores `n` in two's complement.
pub open spec fn pattern32(n: int) -> int {
    if n < 0 {
        n + 4294967296
    } else {
        n
    }
}

/// Bytes one reading occupies when decoded: two for 16-bit readings, else four.
pub open spec fn read_width(bytes_per_sample: int) -> int {
    if bytes_per_sample == 2 {
        2
    } else {
        4
    }
}

/// The reading stored at byte `off`: a signed 16-bit value when readings are
/// two bytes wide, a signed 32-bit value otherwise.
pub open spec fn reading_at(data: Seq<u8>, order: ByteOrder, bytes_per_sample: int, off: int) -> int {
    let b = data.subrange(off, off + read_width(bytes_per_sample));
    if bytes_per_sample == 2 {
        match order {
            ByteOrder::LittleEndian => signed16(u16_le(b)),
            ByteOrder::BigEndian => signed16(u16_be(b)),
        }
    } else {
        match order {
            ByteOrder::LittleEndian => signed32(u32_le(b)),
            ByteOrder::BigEndian => signed32(u32_be(b)),
        }
    }
}

/// Bytes of one frame.
pub open spec fn frame_bytes(layout: FrameLayout) -> int {
    layout.num_sensors * 3 * layout.bytes_per_sample
}

/// Byte offset of channel `ch` (0 axial, 1 radial, 2 circumferential) of
/// `sensor` in frame `s`.
pub open spec fn channel_offset(layout: FrameLayout, s: int, sensor: int, ch: int) -> int {
    s * frame_bytes(layout) + sensor * 3 * layout.bytes_per_sample + ch * layout.bytes_per_sample
}

/// The raw sample of `sensor` in frame `s` of `data`.
pub open spec fn sample_at(data: Seq<u8>, layout: FrameLayout, s: int, sensor: int) -> (int, int, int) {
    let bps = layout.bytes_per_sample as int;
    (
        reading_at(data, layout.byte_order, bps, channel_offset(layout, s, sensor, 0)),
        reading_at(data, layout.byte_order, bps, channel_offset(layout, s, sensor, 1)),
        reading_at(data, layout.byte_order, bps, channel_offset(layout, s, sensor, 2)),
    )
}

/// The three readings of a raw sample as integers.
pub open spec fn raw_triple(r: RawSample) -> (int, int, int) {
    (r.axial as int, r.radial as int, r.circumferential as int)
}

/// Every reading of a block of `num_samples` frames lies within `len` bytes: it
/// suffices that the last reading does, as readings lie in increasing order.
pub open spec fn readings_fit(layout: FrameLayout, num_samples: int, len: int) -> bool {
    num_samples == 0 || layout.num_sensors == 0 || channel_offset(
        layout,
        num_samples - 1,
        layout.num_sensors - 1,
        2,
    ) + read_width(layout.bytes_per_sample as int) <= len
}

/// `byteorder::LittleEndian::read_i16`: the first two bytes, least significant first,
/// as a two's-complement value.
#[verifier::external_body]
fn read_i16_le(buf: &[u8]) -> (r: i16)
    requires
        buf@.len() >= 2,
    ensures
        r as int == signed16(u16_le(buf@)),
{
    <byteorder::LittleEndian as byteorder::ByteOrder>::read_i16(buf)
}

/// `byteorder::BigEndian::read_i16`: the first two bytes, most significant first,
/// as a two's-complement value.
#[verifier::external_body]
fn read_i16_be(buf: &[u8]) -> (r: i16)
    requires
        buf@.len() >= 2,
    ensures
        r as int == signed16(u16_be(buf@)),
{
    <byteorder::BigEndian as byteorder::ByteOrder>::read_i16(buf)
}

/// `byteorder::LittleEndian::read_i32`: the first four bytes, least significant first,
/// as a two's-complement value.
#[verifier::external_body]
fn read_i32_le(buf: &[u8]) -> (r: i32)
    requires
        buf@.len() >= 4,
    ensures
        r as int == signed32(u32_le(buf@)),
{
    <byteorder::LittleEndian as byteorder::ByteOrder>::read_i32(buf)
}

/// `byteorder::BigEndian::read_i32`: the first four bytes, most significant first,
/// as a two's-complement value.
#[verifier::external_body]
fn read_i32_be(buf: &[u8]) -> (r: i32)
    requires
        buf@.len() >= 4,
    ensures
        r as int == signed32(u32_be(buf@)),
{
    <byteorder::BigEndian as byteorder::ByteOrder>::read_i32(buf)
}

/// `byteorder::LittleEndian::write_i32` into a fresh four-byte buffer: the
/// two's-complement pattern of `n`, least significant byte first.
#[verifier::external_body]
fn write_i32_le(n: i32) -> (b: [u8; 4])
    ensures
        u32_le(b@) == pattern32(n as int),
{
    let mut buf = [0u8; 4];
    <byteorder::LittleEndian as byteorder::ByteOrder>::write_i32(&mut buf, n);
    buf
}

/// Decodes the reading that starts at byte `off` of `data`.
pub fn decode_reading(data: &[u8], order: ByteOrder, bytes_per_sample: usize, off: usize) -> (r: i32)
    requires
        off + read_width(bytes_per_sample as int) <= data@.len(),
    ensures
        r as int == reading_at(data@, order, bytes_per_sample as int, off as int),
{
    let len = data.len();
    proof {
        assert(off + read_width(bytes_per_sample as int) <= len);
    }
    if bytes_per_sample == 2 {
        let b = &data[off..off + 2];
        match order {
            ByteOrder::LittleEndian => read_i16_le(b) as i32,
            ByteOrder::BigEndian => read_i16_be(b) as i32,
        }
    } else {
        let b = &data[off..off + 4];
        match order {
            ByteOrder::LittleEndian => read_i32_le(b),
            ByteOrder::BigEndian => read_i32_be(b),
        }
    }
}


/// Every reading of a block lies in the data once its last reading does.
proof fn lemma_reading_in_block(layout: FrameLayout, n: int, s: int, sensor: int, len: int)
    requires
        0 <= s < n,
        0 <= sensor < layout.num_sensors,
        readings_fit(layout, n, len),
    ensures
        0 <= s * frame_bytes(layout),
        0 <= sensor * 3 * layout.bytes_per_sample,
        sensor * 3 <= layout.num_sensors * 3,
        channel_offset(layout, s, sensor, 0) + read_width(layout.bytes_per_sample as int) <= len,
        channel_offset(layout, s, sensor, 1) + read_width(layout.bytes_per_sample as int) <= len,
        channel_offset(layout, s, sensor, 2) + read_width(layout.bytes_per_sample as int) <= len,
{
    let b = layout.bytes_per_sample as int;
    let ns = layout.num_sensors as int;
    let f = frame_bytes(layout);
    assert(0 <= f) by (nonlinear_arith)
        requires
            f == ns * 3 * b,
            ns >= 0,
            b >= 0,
    ;
    assert(0 <= s * f <= (n - 1) * f) by (nonlinear_arith)
        requires
            0 <= s <= n - 1,
            f >= 0,
    ;
    assert(0 <= sensor * 3 * b <= (ns - 1) * 3 * b) by (nonlinear_arith)
        requires
            0 <= sensor <= ns - 1,
            b >= 0,
    ;
}

/// Decodes `num_samples` frames from the start of `data` into one row of raw
/// samples per sensor (`out[sensor][sample]`).
pub fn decode_block(data: &[u8], layout: FrameLayout, num_samples: usize) -> (out: Vec<
    Vec<RawSample>,
>)
    requires
        layout.num_sensors * 3 <= usize::MAX,
        frame_bytes(layout) <= usize::MAX,
        readings_fit(layout, num_samples as int, data@.len() as int),
    ensures
        out@.len() == layout.num_sensors,
        forall|sensor: int|
            0 <= sensor < out@.len() ==> (#[trigger] out@[sensor])@.len() == num_samples,
        forall|sensor: int, s: int|
            0 <= sensor < layout.num_sensors && 0 <= s < num_samples ==> raw_triple(
                #[trigger] out@[sensor]@[s],
            ) == sample_at(data@, layout, s, sensor),
{
    let bps = layout.bytes_per_sample;
    let ns = layout.num_sensors;
    let data_len = data.len();
    let frame = ns * 3 * bps;
    let mut out: Vec<Vec<RawSample>> = Vec::new();
    let mut sensor: usize = 0;
    while sensor < ns
        invariant
            bps == layout.bytes_per_sample,
            ns == layout.num_sensors,
            frame == frame_bytes(layout),
            ns * 3 <= usize::MAX,
            readings_fit(layout, num_samples as int, data@.len() as int),
            data_len == data@.len(),
            sensor <= ns,
            out@.len() == sensor,
            forall|i: int| 0 <= i < sensor ==> (#[trigger] out@[i])@.len() == num_samples,
            forall|i: int, s: int|
                0 <= i < sensor && 0 <= s < num_samples ==> raw_triple(#[trigger] out@[i]@[s])
                    == sample_at(data@, layout, s, i),
        decreases ns - sensor,
    {
        let mut row: Vec<RawSample> = Vec::new();
        let mut s: usize = 0;
        while s < num_samples
            invariant
                bps == layout.bytes_per_sample,
                ns == layout.num_sensors,
                frame == frame_bytes(layout),
                ns * 3 <= usize::MAX,
                readings_fit(layout, num_samples as int, data@.len() as int),
                data_len == data@.len(),
                sensor < ns,
                s <= num_samples,
                row@.len() == s,
                forall|j: int|
                    0 <= j < s ==> raw_triple(#[trigger] row@[j]) == sample_at(data@, layout, j, sensor as int),
            decreases num_samples - s,
        {
            proof {
                lemma_reading_in_block(layout, num_samples as int, s as int, sensor as int, data@.len() as int);
            }
            let base = s * frame + sensor * 3 * bps;
            let axial = decode_reading(data, layout.byte_order, bps, base);
            let radial = decode_reading(data, layout.byte_order, bps, base + bps);
            let circumferential = decode_reading(data, layout.byte_order, bps, base + 2 * bps);
            row.push(RawSample { axial, radial, circumferential });
            proof {
                assert(row@[s as int] == RawSample { axial, radial, circumferential });
            }
            s = s + 1;
        }
        out.push(row);
        proof {
            assert(out@[sensor as int] == row);
        }
        sensor = sensor + 1;
    }
    out
}


/// The twelve bytes that store one raw sample in the little-endian, four-byte layout.
pub open spec fn encodes_sample_le(bytes: Seq<u8>, r: RawSample) -> bool {
    &&& bytes.len() == 12
    &&& u32_le(bytes.subrange(0, 4)) == pattern32(r.axial as int)
    &&& u32_le(bytes.subrange(4, 8)) == pattern32(r.radial as int)
    &&& u32_le(bytes.subrange(8, 12)) == pattern32(r.circumferential as int)
}

/// The layout the test-file generator writes: four-byte little-endian readings.
pub open spec fn generator_layout(num_sensors: usize) -> FrameLayout {
    FrameLayout { bytes_per_sample: 4, num_sensors, byte_order: ByteOrder::LittleEndian }
}

/// Encodes one raw sample as three four-byte little-endian readings.
pub fn encode_sample_le(r: RawSample) -> (bytes: Vec<u8>)
    ensures
        encodes_sample_le(bytes@, r),
{
    let mut bytes: Vec<u8> = Vec::new();
    let a = write_i32_le(r.axial);
    let b = write_i32_le(r.radial);
    let c = write_i32_le(r.circumferential);
    bytes.push(a[0]);
    bytes.push(a[1]);
    bytes.push(a[2]);
    bytes.push(a[3]);
    bytes.push(b[0]);
    bytes.push(b[1]);
    bytes.push(b[2]);
    bytes.push(b[3]);
    bytes.push(c[0]);
    bytes.push(c[1]);
    bytes.push(c[2]);
    bytes.push(c[3]);
    proof {
        assert(bytes@.subrange(0, 4) =~= a@);
        assert(bytes@.subrange(4, 8) =~= b@);
        assert(bytes@.subrange(8, 12) =~= c@);
    }
    bytes
}

/// A file written by the test-file generator, which stores the samples frame by
/// frame and sensor by sensor, twelve bytes each, reads back unchanged through the
/// frame decoder in the generator's layout.
pub proof fn lemma_encoded_sample_reads_back(bytes: Seq<u8>, num_sensors: usize, s: int, sensor: int, r: RawSample)
    requires
        0 <= s,
        0 <= sensor < num_sensors,
        (s * num_sensors + sensor) * 12 + 12 <= bytes.len(),
        encodes_sample_le(
            bytes.subrange((s * num_sensors + sensor) * 12, (s * num_sensors + sensor) * 12 + 12),
            r,
        ),
    ensures
        sample_at(bytes, generator_layout(num_sensors), s, sensor) == raw_triple(r),
{
    let layout = generator_layout(num_sensors);
    let off = (s * num_sensors + sensor) * 12;
    let piece = bytes.subrange(off, off + 12);
    assert(s * (num_sensors * 3 * 4) + sensor * 3 * 4 == off) by (nonlinear_arith)
        requires
            off == (s * num_sensors + sensor) * 12,
    ;
    assert(channel_offset(layout, s, sensor, 0) == off);
    assert(channel_offset(layout, s, sensor, 1) == off + 4);
    assert(channel_offset(layout, s, sensor, 2) == off + 8);
    assert(bytes.subrange(off, off + 4) =~= piece.subrange(0, 4));
    assert(bytes.subrange(off + 4, off + 8) =~= piece.subrange(4, 8));
    assert(bytes.subrange(off + 8, off + 12) =~= piece.subrange(8, 12));
}


/// `data` with the bytes of each whole `width`-byte word reversed; bytes after the
/// last whole word stay as they are.
pub open spec fn swap_words(data: Seq<u8>, width: int) -> Seq<u8> {
    Seq::new(
        data.len(),
        |i: int|
            {
                let k = i / width;
                if (k + 1) * width <= data.len() {
                    data[k * width + (width - 1 - i % width)]
                } else {
                    data[i]
                }
            },
    )
}

/// The same layout with its readings stored in the other byte order.
pub open spec fn with_byte_order(layout: FrameLayout, order: ByteOrder) -> FrameLayout {
    FrameLayout { bytes_per_sample: layout.bytes_per_sample, num_sensors: layout.num_sensors, byte_order: order }
}

/// A big-endian reading at a word boundary is the little-endian reading of the
/// same word with its bytes reversed.
proof fn lemma_reading_swapped(data: Seq<u8>, b: int, k: int)
    requires
        b == 2 || b == 4,
        0 <= k,
        (k + 1) * b <= data.len(),
    ensures
        reading_at(data, ByteOrder::BigEndian, b, k * b) == reading_at(
            swap_words(data, b),
            ByteOrder::LittleEndian,
            b,
            k * b,
        ),
{
    let off = k * b;
    let sw = swap_words(data, b);
    assert forall|j: int| 0 <= j < b implies #[trigger] sw[off + j] == data[off + (b - 1 - j)] by {
        if b == 2 {
            assert((off + j) / 2 == k && (off + j) % 2 == j);
        } else {
            assert((off + j) / 4 == k && (off + j) % 4 == j);
        }
    }
    if b == 2 {
        assert(sw[off] == data[off + 1] && sw[off + 1] == data[off]);
    } else {
        assert(sw[off] == data[off + 3] && sw[off + 1] == data[off + 2]);
        assert(sw[off + 2] == data[off + 1] && sw[off + 3] == data[off]);
    }
}

/// Decoding big-endian data gives what decoding the same data as little-endian
/// gives once the bytes of each reading are reversed, for readings two or four
/// bytes wide.
pub proof fn lemma_big_endian_is_swapped_little_endian(
    data: Seq<u8>,
    layout: FrameLayout,
    num_samples: int,
    s: int,
    sensor: int,
)
    requires
        layout.bytes_per_sample == 2 || layout.bytes_per_sample == 4,
        layout.byte_order == ByteOrder::BigEndian,
        num_samples * frame_bytes(layout) <= data.len(),
        0 <= s < num_samples,
        0 <= sensor < layout.num_sensors,
    ensures
        sample_at(data, layout, s, sensor) == sample_at(
            swap_words(data, layout.bytes_per_sample as int),
            with_byte_order(layout, ByteOrder::LittleEndian),
            s,
            sensor,
        ),
{
    let b = layout.bytes_per_sample as int;
    let ns = layout.num_sensors as int;
    let le = with_byte_order(layout, ByteOrder::LittleEndian);
    assert forall|ch: int| 0 <= ch < 3 implies channel_offset(layout, s, sensor, ch) == (s * ns * 3 + sensor
        * 3 + ch) * b && (s * ns * 3 + sensor * 3 + ch + 1) * b <= data.len() && #[trigger] channel_offset(
        le,
        s,
        sensor,
        ch,
    ) == channel_offset(layout, s, sensor, ch) by {
        assert(s * (ns * 3 * b) + sensor * 3 * b + ch * b == (s * ns * 3 + sensor * 3 + ch) * b)
            by (nonlinear_arith);
        assert((s * ns * 3 + sensor * 3 + ch + 1) * b <= num_samples * (ns * 3 * b)) by (nonlinear_arith)
            requires
                0 <= s < num_samples,
                0 <= sensor < ns,
                0 <= ch < 3,
                b >= 2,
        ;
    }
    assert(channel_offset(le, s, sensor, 0) == channel_offset(layout, s, sensor, 0));
    assert(channel_offset(le, s, sensor, 1) == channel_offset(layout, s, sensor, 1));
    assert(channel_offset(le, s, sensor, 2) == channel_offset(layout, s, sensor, 2));
    let w = s * ns * 3 + sensor * 3;
    assert((w + 1) * b <= data.len());
    assert((w + 1 + 1) * b <= data.len());
    assert((w + 2 + 1) * b <= data.len());
    lemma_reading_swapped(data, b, w);
    lemma_reading_swapped(data, b, w + 1);
    lemma_reading_swapped(data, b, w + 2);
}

/// What Rust's `str::to_lowercase` makes of a string.
pub uninterp spec fn lowercase_of(s: Seq<char>) -> Seq<char>;

/// `str::to_lowercase`: the string with every character mapped to lower case by
/// the Unicode rules; its result is named, not described.
#[verifier::external_body]
fn to_lowercase(s: &str) -> (r: String)
    ensures
        r@ == lowercase_of(s@),
{
    s.to_lowercase()
}

/// The byte order a (lower-case) name stands for: "little" or "le", "big" or "be".
pub open spec fn spec_byte_order_named(name: Seq<char>) -> Option<ByteOrder> {
    if name == "little"@ || name == "le"@ {
        Some(ByteOrder::LittleEndian)
    } else if name == "big"@ || name == "be"@ {
        Some(ByteOrder::BigEndian)
    } else {
        None
    }
}

/// Whether two strings hold the same characters.
fn str_equals(a: &str, b: &str) -> (r: bool)
    ensures
        r == (a@ == b@),
{
    let n = a.unicode_len();
    if n != b.unicode_len() {
        return false;
    }
    let mut i: usize = 0;
    while i < n
        invariant
            n == a@.len(),
            n == b@.len(),
            i <= n,
            forall|j: int| 0 <= j < i ==> a@[j] == b@[j],
        decreases n - i,
    {
        if a.get_char(i) != b.get_char(i) {
            return false;
        }
        i = i + 1;
    }
    proof {
        assert(a@ =~= b@);
    }
    true
}

/// The byte order a lower-case name stands for, if any.
pub fn byte_order_named(name: &str) -> (r: Option<ByteOrder>)
    ensures
        r == spec_byte_order_named(name@),
{
    if str_equals(name, "little") || str_equals(name, "le") {
        Some(ByteOrder::LittleEndian)
    } else if str_equals(name, "big") || str_equals(name, "be") {
        Some(ByteOrder::BigEndian)
    } else {
        None
    }
}

/// The byte order a command-line name stands for, in any letter case.
pub fn parse_byte_order(arg: &str) -> (r: Option<ByteOrder>)
    ensures
        r == spec_byte_order_named(lowercase_of(arg@)),
{
    let lower = to_lowercase(arg);
    byte_order_named(lower.as_str())
}

} // verus!
