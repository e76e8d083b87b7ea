//! A transport-like segment: a header with a ones'-complement checksum, then the
//! payload, zero-padded to a 16-bit boundary.
use super::checksum::{checksum_of, checksum_words};
use super::Frame;
use crate::bit::Bit;
use crate::bit_string::{word_count, zeros, BitString};
use crate::word::{lemma_word_bits_len, overwrite, word_bits};
use vstd::prelude::*;

verus! {

/// The longest header, in octets.
pub const MAX_TCP_HEADER_LEN: usize = 60;

/// The largest payload of one frame, in octets.
pub const MAX_TCP_DATA_LEN: usize = 65535 - MAX_TCP_HEADER_LEN;

/// Flag bit: no more data from the sender.
pub const FIN: u8 = 0b1;

/// Flag bit: synchronise sequence numbers.
pub const SYN: u8 = 0b10;

/// Flag bit: reset the connection.
pub const RST: u8 = 0b100;

/// Flag bit: push buffered data.
pub const PSH: u8 = 0b1000;

/// Flag bit: the acknowledgment field is significant.
pub const ACK: u8 = 0b1_0000;

/// Flag bit: the urgent pointer is significant.
pub const URG: u8 = 0b10_0000;

/// Flag bit: congestion echo.
pub const ECE: u8 = 0b100_0000;

/// Flag bit: congestion window reduced.
pub const CWR: u8 = 0b1000_0000;

/// What a builder has been configured with.
pub struct TcpConfig {
    pub source_port: Option<u16>,
    pub target_port: Option<u16>,
    pub sequence_num: u32,
    pub ack_num: u32,
    pub data_offset: u8,
    pub flag_byte: u8,
    pub window_size: Option<u16>,
    pub urgent_pointer: u16,
    pub options: Seq<u32>,
}

/// What a built frame holds.
pub struct TcpFrameModel {
    pub source_port: u16,
    pub target_port: u16,
    pub sequence_num: u32,
    pub ack_num: u32,
    pub data_offset: u8,
    pub flag_byte: u8,
    pub window_size: u16,
    pub checksum: u16,
    pub urgent_pointer: u16,
    pub options: Seq<u32>,
    pub data: Seq<Bit>,
    pub bits: Seq<Bit>,
}

/// The number of option words that a header-length field asks for.
pub open spec fn option_words(c: TcpConfig) -> nat {
    if c.data_offset >= 5 {
        (c.data_offset - 5) as nat
    } else {
        0
    }
}

/// The first `k` option words, 32 bits each.
pub open spec fn options_bits(opts: Seq<u32>, k: nat) -> Seq<Bit>
    decreases k,
{
    if k == 0 {
        Seq::empty()
    } else {
        options_bits(opts, (k - 1) as nat) + word_bits(opts[k - 1] as nat, 32)
    }
}

/// The 128 header bits in front of the checksum field.
pub open spec fn header_front(c: TcpConfig) -> Seq<Bit> {
    word_bits(c.source_port.unwrap() as nat, 16) + word_bits(c.target_port.unwrap() as nat, 16)
        + word_bits(c.sequence_num as nat, 32) + word_bits(c.ack_num as nat, 32) + word_bits(
        (c.data_offset * 16) as nat,
        8,
    ) + word_bits(c.flag_byte as nat, 8) + word_bits(c.window_size.unwrap() as nat, 16)
}

/// The header bits behind the checksum field: urgent pointer and option words.
pub open spec fn header_back(c: TcpConfig) -> Seq<Bit> {
    word_bits(c.urgent_pointer as nat, 16) + options_bits(c.options, option_words(c))
}

/// The number of zero bits that bring `n` bits to a 16-bit boundary.
pub open spec fn pad16(n: nat) -> nat {
    ((16 - n % 16) % 16) as nat
}

/// The serialized frame with `checksum` in its checksum field.
pub open spec fn frame_bits(c: TcpConfig, payload: Seq<Bit>, checksum: u16) -> Seq<Bit> {
    let u = header_front(c) + word_bits(checksum as nat, 16) + header_back(c) + payload;
    u + zeros(pad16(u.len()))
}

/// The checksum of a frame: computed over it with a zero checksum field.
pub open spec fn frame_checksum(c: TcpConfig, payload: Seq<Bit>) -> u16 {
    checksum_of(frame_bits(c, payload, 0))
}

/// The frame that `build` makes of `payload` under configuration `c`.
pub open spec fn built_frame(c: TcpConfig, payload: Seq<Bit>) -> TcpFrameModel {
    TcpFrameModel {
        source_port: c.source_port.unwrap(),
        target_port: c.target_port.unwrap(),
        sequence_num: c.sequence_num,
        ack_num: c.ack_num,
        data_offset: c.data_offset,
        flag_byte: c.flag_byte,
        window_size: c.window_size.unwrap(),
        checksum: frame_checksum(c, payload),
        urgent_pointer: c.urgent_pointer,
        options: c.options,
        data: payload,
        bits: frame_bits(c, payload, frame_checksum(c, payload)),
    }
}

/// `c` with its sequence number replaced.
pub open spec fn with_sequence(c: TcpConfig, seq: u32) -> TcpConfig {
    TcpConfig { sequence_num: seq, ..c }
}

/// A fresh builder: nothing set, five header words, all options zero.
pub open spec fn default_config() -> TcpConfig {
    TcpConfig {
        source_port: None,
        target_port: None,
        sequence_num: 0,
        ack_num: 0,
        data_offset: 5,
        flag_byte: 0,
        window_size: None,
        urgent_pointer: 0,
        options: Seq::new(10, |i: int| 0u32),
    }
}

/// The fields that `build` cannot do without have been set.
pub open spec fn config_ready(c: TcpConfig) -> bool {
    c.source_port.is_some() && c.target_port.is_some() && c.window_size.is_some()
}

/// Configures and builds frames.
#[derive(Debug, Clone)]
pub struct TCPFrameBuilder {
    source_port: Option<u16>,
    target_port: Option<u16>,
    sequence_num: u32,
    ack_num: u32,
    data_offset: u8,
    flag_byte: u8,
    window_size: Option<u16>,
    urgent_pointer: u16,
    options: [u32; 10],
}

impl View for TCPFrameBuilder {
    type V = TcpConfig;

    closed spec fn view(&self) -> TcpConfig {
        TcpConfig {
            source_port: self.source_port,
            target_port: self.target_port,
            sequence_num: self.sequence_num,
            ack_num: self.ack_num,
            data_offset: self.data_offset,
            flag_byte: self.flag_byte,
            window_size: self.window_size,
            urgent_pointer: self.urgent_pointer,
            options: self.options@,
        }
    }
}

/// One built frame: its header fields, its payload and its serialized bits.
#[derive(Debug)]
pub struct TCPFrame {
    source_port: u16,
    target_port: u16,
    sequence_num: u32,
    ack_num: u32,
    data_offset: u8,
    flag_byte: u8,
    window_size: u16,
    checksum: u16,
    urgent_pointer: u16,
    options: [u32; 10],
    data: BitString,
    output_bitstring: BitString,
}

impl View for TCPFrame {
    type V = TcpFrameModel;

    closed spec fn view(&self) -> TcpFrameModel {
        TcpFrameModel {
            source_port: self.source_port,
            target_port: self.target_port,
            sequence_num: self.sequence_num,
            ack_num: self.ack_num,
            data_offset: self.data_offset,
            flag_byte: self.flag_byte,
            window_size: self.window_size,
            checksum: self.checksum,
            urgent_pointer: self.urgent_pointer,
            options: self.options@,
            data: self.data@,
            bits: self.output_bitstring@,
        }
    }
}

proof fn lemma_options_bits_len(opts: Seq<u32>, k: nat)
    ensures
        options_bits(opts, k).len() == 32 * k,
    decreases k,
{
    if k > 0 {
        lemma_options_bits_len(opts, (k - 1) as nat);
        lemma_word_bits_len(opts[k - 1] as nat, 32);
    }
}

proof fn lemma_header_front_len(c: TcpConfig)
    ensures
        header_front(c).len() == 128,
{
    lemma_word_bits_len(c.source_port.unwrap() as nat, 16);
    lemma_word_bits_len(c.target_port.unwrap() as nat, 16);
    lemma_word_bits_len(c.sequence_num as nat, 32);
    lemma_word_bits_len(c.ack_num as nat, 32);
    lemma_word_bits_len((c.data_offset * 16) as nat, 8);
    lemma_word_bits_len(c.flag_byte as nat, 8);
    lemma_word_bits_len(c.window_size.unwrap() as nat, 16);
}

/// Writing a checksum over the zero checksum field gives the frame with that checksum.
proof fn lemma_patch_checksum(c: TcpConfig, payload: Seq<Bit>, checksum: u16)
    ensures
        overwrite(frame_bits(c, payload, 0), 128, word_bits(checksum as nat, 16)) == frame_bits(
            c,
            payload,
            checksum,
        ),
{
    lemma_header_front_len(c);
    lemma_word_bits_len(0, 16);
    lemma_word_bits_len(checksum as nat, 16);
    let f = header_front(c);
    let z = word_bits(0, 16);
    let w = word_bits(checksum as nat, 16);
    let rest = header_back(c) + payload;
    let u0 = f + z + header_back(c) + payload;
    let u1 = f + w + header_back(c) + payload;
    assert(u0.len() == u1.len());
    let p = zeros(pad16(u0.len()));
    assert(frame_bits(c, payload, 0) =~= f + z + rest + p);
    assert(frame_bits(c, payload, checksum) =~= f + w + rest + p);
    assert(overwrite(f + z + rest + p, 128, w) =~= f + w + rest + p);
}

impl TCPFrameBuilder {
    /// The header-length field fits its four bits.
    pub open spec fn wf(&self) -> bool {
        self@.data_offset <= 15 && self@.options.len() == 10
    }

    pub fn new() -> (r: TCPFrameBuilder)
        ensures
            r.wf(),
            r@ == default_config(),
    {
        let r = TCPFrameBuilder {
            source_port: None,
            target_port: None,
            sequence_num: 0,
            ack_num: 0,
            data_offset: 5,
            flag_byte: 0,
            window_size: None,
            urgent_pointer: 0,
            options: [0, 0, 0, 0, 0, 0, 0, 0, 0, 0],
        };
        assert(r@.options =~= Seq::new(10, |i: int| 0u32));
        r
    }

    pub fn set_source_port(self, source_port: u16) -> (r: TCPFrameBuilder)
        ensures
            r@ == (TcpConfig { source_port: Some(source_port), ..self@ }),
            self.wf() ==> r.wf(),
    {
        TCPFrameBuilder { source_port: Some(source_port), ..self }
    }

    pub fn set_target_port(self, target_port: u16) -> (r: TCPFrameBuilder)
        ensures
            r@ == (TcpConfig { target_port: Some(target_port), ..self@ }),
            self.wf() ==> r.wf(),
    {
        TCPFrameBuilder { target_port: Some(target_port), ..self }
    }

    pub fn set_ack_num(self, ack_num: u32) -> (r: TCPFrameBuilder)
        ensures
            r@ == (TcpConfig { ack_num, ..self@ }),
            self.wf() ==> r.wf(),
    {
        TCPFrameBuilder { ack_num, ..self }
    }

    /// Sets the header-length field: the number of 32-bit header words.
    pub fn set_data_offset(self, data_offset: u8) -> (r: TCPFrameBuilder)
        requires
            data_offset <= 0b0000_1111u8,
        ensures
            r@ == (TcpConfig { data_offset, ..self@ }),
            self.wf() ==> r.wf(),
    {
        TCPFrameBuilder { data_offset, ..self }
    }

    /// Adds the bits of `flag` to the flag byte.
    pub fn set_flags(self, flag: u8) -> (r: TCPFrameBuilder)
        ensures
            r@ == (TcpConfig { flag_byte: self@.flag_byte | flag, ..self@ }),
            self.wf() ==> r.wf(),
    {
        let flag_byte = self.flag_byte | flag;
        TCPFrameBuilder { flag_byte, ..self }
    }

    pub fn set_window_size(self, window_size: u16) -> (r: TCPFrameBuilder)
        ensures
            r@ == (TcpConfig { window_size: Some(window_size), ..self@ }),
            self.wf() ==> r.wf(),
    {
        TCPFrameBuilder { window_size: Some(window_size), ..self }
    }

    pub fn set_urgent_pointer(self, urgent_pointer: u16) -> (r: TCPFrameBuilder)
        ensures
            r@ == (TcpConfig { urgent_pointer, ..self@ }),
            self.wf() ==> r.wf(),
    {
        TCPFrameBuilder { urgent_pointer, ..self }
    }

    pub fn set_options(self, options: [u32; 10]) -> (r: TCPFrameBuilder)
        ensures
            r@ == (TcpConfig { options: options@, ..self@ }),
            self.wf() ==> r.wf(),
    {
        TCPFrameBuilder { options, ..self }
    }

    /// Builds one frame around `data`.
    pub fn build(&self, data: BitString) -> (r: TCPFrame)
        requires
            self.wf(),
            config_ready(self@),
        ensures
            r@ == built_frame(self@, data@),
    {
        let source_port = self.source_port.unwrap();
        let target_port = self.target_port.unwrap();
        let window_size = self.window_size.unwrap();
        let ghost c = self@;

        let mut out = BitString::new();
        out.append_u16(source_port);
        out.append_u16(target_port);
        out.append_u32(self.sequence_num);
        out.append_u32(self.ack_num);
        out.append_u8(self.data_offset * 16);
        out.append_u8(self.flag_byte);
        out.append_u16(window_size);
        assert(out@ =~= header_front(c));
        out.append_u16(0);
        out.append_u16(self.urgent_pointer);
        let words: u8 = if self.data_offset >= 5 {
            self.data_offset - 5
        } else {
            0
        };
        let mut i: u8 = 0;
        assert(out@ =~= header_front(c) + word_bits(0, 16) + word_bits(
            c.urgent_pointer as nat,
            16,
        ) + options_bits(c.options, 0));
        while i < words
            invariant
                self.wf(),
                c == self@,
                words == option_words(c),
                i <= words,
                out@ == header_front(c) + word_bits(0, 16) + word_bits(c.urgent_pointer as nat, 16)
                    + options_bits(c.options, i as nat),
            decreases words - i,
        {
            out.append_u32(self.options[i as usize]);
            i += 1;
            assert(options_bits(c.options, i as nat) == options_bits(c.options, (i - 1) as nat)
                + word_bits(c.options[i - 1] as nat, 32));
            assert(out@ =~= header_front(c) + word_bits(0, 16) + word_bits(
                c.urgent_pointer as nat,
                16,
            ) + options_bits(c.options, i as nat));
        }
        out.append_bits(data.as_bit_slice());
        let pad = (16 - out.len() % 16) % 16;
        out.append_zeroes(pad);
        assert(out@ =~= frame_bits(c, data@, 0));
        let words16 = out.as_vec_exact_u16();
        let checksum = checksum_words(&words16, Ghost(out@));
        out.set_u16(128, checksum);
        proof {
            lemma_patch_checksum(c, data@, checksum);
        }
        TCPFrame {
            source_port,
            target_port,
            sequence_num: self.sequence_num,
            ack_num: self.ack_num,
            data_offset: self.data_offset,
            flag_byte: self.flag_byte,
            window_size,
            checksum,
            urgent_pointer: self.urgent_pointer,
            options: self.options,
            data,
            output_bitstring: out,
        }
    }

    /// Builds one frame per element of `data_points`, numbered 0, 1, 2, ... in order.
    pub fn build_all(self, data_points: &[BitString]) -> (r: Vec<TCPFrame>)
        requires
            self.wf(),
            config_ready(self@),
            data_points@.len() < u32::MAX,
        ensures
            r.len() == data_points@.len(),
            forall|i: int|
                0 <= i < r.len() ==> #[trigger] r[i]@ == built_frame(
                    with_sequence(self@, i as u32),
                    data_points@[i]@,
                ),
            forall|i: int| 0 <= i < r.len() ==> #[trigger] r[i]@.sequence_num == i,
    {
        let mut builder = self;
        let mut res_vec: Vec<TCPFrame> = Vec::new();
        let mut idx: usize = 0;
        while idx < data_points.len()
            invariant
                idx <= data_points@.len() < u32::MAX,
                builder.wf(),
                config_ready(builder@),
                with_sequence(builder@, 0) == with_sequence(self@, 0),
                res_vec.len() == idx,
                forall|i: int|
                    0 <= i < idx ==> #[trigger] res_vec[i]@ == built_frame(
                        with_sequence(self@, i as u32),
                        data_points@[i]@,
                    ),
            decreases data_points@.len() - idx,
        {
            builder.sequence_num = idx as u32;
            assert(builder@ == with_sequence(self@, idx as u32));
            let data = data_points[idx].duplicate();
            res_vec.push(builder.build(data));
            idx += 1;
        }
        res_vec
    }
}

impl Default for TCPFrameBuilder {
    fn default() -> (r: TCPFrameBuilder)
        ensures
            r.wf(),
            r@ == default_config(),
    {
        TCPFrameBuilder::new()
    }
}

/// The number of payload bits that one frame carries at most.
pub open spec fn chunk_bits() -> nat {
    8 * MAX_TCP_DATA_LEN as nat
}

/// The `k`-th piece of `s` cut into pieces of `size` bits; the last may be shorter.
pub open spec fn chunk(s: Seq<Bit>, k: int, size: nat) -> Seq<Bit> {
    if (k + 1) * size <= s.len() {
        s.subrange(k * size, (k + 1) * size)
    } else {
        s.subrange(k * size, s.len() as int)
    }
}

impl TCPFrame {
    pub fn source_port(&self) -> (r: u16)
        ensures
            r == self@.source_port,
    {
        self.source_port
    }

    pub fn target_port(&self) -> (r: u16)
        ensures
            r == self@.target_port,
    {
        self.target_port
    }

    pub fn sequence_num(&self) -> (r: u32)
        ensures
            r == self@.sequence_num,
    {
        self.sequence_num
    }

    pub fn ack_num(&self) -> (r: u32)
        ensures
            r == self@.ack_num,
    {
        self.ack_num
    }

    pub fn data_offset(&self) -> (r: u8)
        ensures
            r == self@.data_offset,
    {
        self.data_offset
    }

    pub fn flag_byte(&self) -> (r: u8)
        ensures
            r == self@.flag_byte,
    {
        self.flag_byte
    }

    pub fn window_size(&self) -> (r: u16)
        ensures
            r == self@.window_size,
    {
        self.window_size
    }

    pub fn checksum(&self) -> (r: u16)
        ensures
            r == self@.checksum,
    {
        self.checksum
    }

    pub fn urgent_pointer(&self) -> (r: u16)
        ensures
            r == self@.urgent_pointer,
    {
        self.urgent_pointer
    }

    pub fn options(&self) -> (r: [u32; 10])
        ensures
            r@ == self@.options,
    {
        self.options
    }

    pub fn data(&self) -> (r: &BitString)
        ensures
            r@ == self@.data,
    {
        &self.data
    }
}

impl Frame<TCPFrameBuilder> for TCPFrame {
    open spec fn ready(data: Seq<Bit>, builder: &TCPFrameBuilder) -> bool {
        builder.wf() && config_ready(builder@) && word_count(data.len(), chunk_bits()) < u32::MAX
    }

    open spec fn wire(&self) -> Seq<Bit> {
        self@.bits
    }

    /// Cuts `data` into pieces that fit one frame each and builds a frame of each.
    fn setup_frames(data: BitString, builder: TCPFrameBuilder) -> (r: Vec<TCPFrame>)
        ensures
            r.len() == word_count(data@.len(), chunk_bits()),
            forall|k: int|
                0 <= k < r.len() ==> #[trigger] r[k]@ == built_frame(
                    with_sequence(builder@, k as u32),
                    chunk(data@, k, chunk_bits()),
                ),
    {
        let size: usize = 8 * MAX_TCP_DATA_LEN;
        let len = data.len();
        let count = if len % size == 0 {
            len / size
        } else {
            len / size + 1
        };
        assert(count == word_count(len as nat, size as nat)) by (nonlinear_arith)
            requires
                size > 0,
                count == if len % size == 0 {
                    (len / size) as int
                } else {
                    len / size + 1
                },
        ;
        let mut bundled_data: Vec<BitString> = Vec::new();
        let mut k: usize = 0;
        while k < count
            invariant
                size == chunk_bits(),
                len == data@.len(),
                count == word_count(len as nat, size as nat),
                k <= count,
                bundled_data.len() == k,
                forall|j: int|
                    0 <= j < k ==> #[trigger] bundled_data[j]@ == chunk(data@, j, size as nat),
            decreases count - k,
        {
            assert(k * size < len) by (nonlinear_arith)
                requires
                    size > 0,
                    k < count,
                    count == word_count(len as nat, size as nat),
            ;
            let start = k * size;
            assert((k + 1) * size == start + size) by (nonlinear_arith)
                requires
                    start == k * size,
            ;
            let piece = data.copy_len(start, size);
            assert(piece@ == chunk(data@, k as int, size as nat));
            bundled_data.push(piece);
            k += 1;
        }
        builder.build_all(bundled_data.as_slice())
    }

    fn as_bit_string(&self) -> (r: &BitString) {
        &self.output_bitstring
    }
}

} // verus!
