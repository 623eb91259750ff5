//! DMA buffer descriptors, the byte regions behind them and the descriptor
//! rings that the MAC's DMA engine walks.
use vstd::prelude::*;

verus! {

/// Which side may act on a descriptor's buffer.
#[derive(Clone, Copy, Debug, PartialEq, Eq, Structural)]
pub enum BufferDescriptorOwnership {
    Software,
    Hardware,
}

/// Marks the physically last descriptor of a ring.
#[derive(Clone, Copy, Debug, PartialEq, Eq, Structural)]
pub enum BufferDescriptorListWrap {
    NoWrap,
    Wrap,
}

/// Size in bytes of the buffer behind each descriptor.
pub const BUFFER_SIZE: usize = 128;

/// Receive word 0: bit 0 set means the buffer holds data for software.
pub const RX_OWNERSHIP_BIT: u32 = 0x0000_0001;
/// Receive word 0: bit 1 marks the end of the ring.
pub const RX_WRAP_BIT: u32 = 0x0000_0002;
/// Receive word 0: the bits that hold the buffer's address.
pub const RX_ADDRESS_MASK: u32 = 0xFFFF_FFFC;
/// Receive word 1: the buffer starts a frame.
pub const RX_START_OF_FRAME_BIT: u32 = 0x0000_4000;
/// Receive word 1: the buffer ends a frame.
pub const RX_END_OF_FRAME_BIT: u32 = 0x0000_8000;

pub open spec fn rx_ownership_of(word: u32) -> BufferDescriptorOwnership {
    if word & RX_OWNERSHIP_BIT == 0 {
        BufferDescriptorOwnership::Hardware
    } else {
        BufferDescriptorOwnership::Software
    }
}

pub open spec fn rx_ownership_bits(ownership: BufferDescriptorOwnership) -> u32 {
    match ownership {
        BufferDescriptorOwnership::Hardware => 0,
        BufferDescriptorOwnership::Software => RX_OWNERSHIP_BIT,
    }
}

pub open spec fn rx_wrap_of(word: u32) -> BufferDescriptorListWrap {
    if word & RX_WRAP_BIT == 0 {
        BufferDescriptorListWrap::NoWrap
    } else {
        BufferDescriptorListWrap::Wrap
    }
}

pub open spec fn rx_wrap_bits(wrap: BufferDescriptorListWrap) -> u32 {
    match wrap {
        BufferDescriptorListWrap::NoWrap => 0,
        BufferDescriptorListWrap::Wrap => RX_WRAP_BIT,
    }
}

/// Receive word 0 as the driver composes it from its three fields.
pub open spec fn rx_word0(address: u32, wrap: BufferDescriptorListWrap, ownership: BufferDescriptorOwnership) -> u32 {
    address | rx_wrap_bits(wrap) | rx_ownership_bits(ownership)
}

/// Decoding an encoded receive word 0 gives back the address, the wrap
/// marker and the ownership it was built from.
pub proof fn lemma_rx_word0_round_trip(
    address: u32,
    wrap: BufferDescriptorListWrap,
    ownership: BufferDescriptorOwnership,
)
    requires
        address % 4 == 0,
    ensures
        rx_word0(address, wrap, ownership) & RX_ADDRESS_MASK == address,
        rx_wrap_of(rx_word0(address, wrap, ownership)) == wrap,
        rx_ownership_of(rx_word0(address, wrap, ownership)) == ownership,
{
    let w = rx_wrap_bits(wrap);
    let o = rx_ownership_bits(ownership);
    assert(w == 0 || w == 2);
    assert(o == 0 || o == 1);
    assert((address | w | o) & 0xFFFF_FFFC == address) by (bit_vector)
        requires address % 4 == 0, w == 0 || w == 2, o == 0 || o == 1;
    assert(((address | w | o) & 2 == 0) == (w == 0)) by (bit_vector)
        requires address % 4 == 0, w == 0 || w == 2, o == 0 || o == 1;
    assert(((address | w | o) & 1 == 0) == (o == 0)) by (bit_vector)
        requires address % 4 == 0, w == 0 || w == 2, o == 0 || o == 1;
}


/// Transmit word 1: bits 13..0 hold the number of bytes used in the buffer.
pub const TX_LENGTH_MASK: u32 = 0x0000_3FFF;
/// Transmit word 1: the buffer is the last one of its frame.
pub const TX_LAST_BUFFER_BIT: u32 = 0x0000_8000;
/// Transmit word 1: bits 22..20 hold the checksum generation error code.
pub const TX_CHECKSUM_ERROR_SHIFT: u32 = 20;
/// Transmit word 1: the frame hit a late collision.
pub const TX_LATE_COLLISION_BIT: u32 = 0x0400_0000;
/// Transmit word 1: the frame was corrupted.
pub const TX_FRAME_CORRUPT_BIT: u32 = 0x0800_0000;
/// Transmit word 1: the DMA engine ran out of data mid-frame.
pub const TX_UNDERRUN_BIT: u32 = 0x1000_0000;
/// Transmit word 1: the retry limit was exceeded.
pub const TX_RETRY_LIMIT_BIT: u32 = 0x2000_0000;
/// Transmit word 1: bit 30 marks the end of the ring.
pub const TX_WRAP_BIT: u32 = 0x4000_0000;
/// Transmit word 1: bit 31 set means the buffer is free for software.
pub const TX_OWNERSHIP_BIT: u32 = 0x8000_0000;

pub open spec fn tx_ownership_of(word: u32) -> BufferDescriptorOwnership {
    if word & TX_OWNERSHIP_BIT == 0 {
        BufferDescriptorOwnership::Hardware
    } else {
        BufferDescriptorOwnership::Software
    }
}

pub open spec fn tx_ownership_bits(ownership: BufferDescriptorOwnership) -> u32 {
    match ownership {
        BufferDescriptorOwnership::Hardware => 0,
        BufferDescriptorOwnership::Software => TX_OWNERSHIP_BIT,
    }
}

pub open spec fn tx_wrap_of(word: u32) -> BufferDescriptorListWrap {
    if word & TX_WRAP_BIT == 0 {
        BufferDescriptorListWrap::NoWrap
    } else {
        BufferDescriptorListWrap::Wrap
    }
}

pub open spec fn tx_wrap_bits(wrap: BufferDescriptorListWrap) -> u32 {
    match wrap {
        BufferDescriptorListWrap::NoWrap => 0,
        BufferDescriptorListWrap::Wrap => TX_WRAP_BIT,
    }
}

pub open spec fn bit_set(word: u32, mask: u32) -> bool {
    word & mask != 0
}

pub open spec fn flag_bits(flag: bool, mask: u32) -> u32 {
    if flag {
        mask
    } else {
        0
    }
}

/// Transmit checksum generation offload errors.
#[derive(Clone, Copy, Debug, PartialEq, Eq, Structural)]
pub enum TxChecksumGenerationError {
    /// The packet was identified as a VLAN type, but the header was not
    /// fully complete, or had an error in it.
    VlanBadHeader,
    /// The packet was identified as a SNAP type, but the header was not
    /// fully complete, or had an error in it.
    SnapBadHeader,
    /// The packet was not of an IP type, or the IP packet was invalidly
    /// short, or the IP was not of type IPv4/IPv6.
    IpBadPacket,
    /// The packet was not identified as VLAN, SNAP or IP.
    NotIdentified,
    /// Non supported packet fragmentation occurred. For IPv4 packets, the IP
    /// checksum was generated and inserted.
    Fragmentation,
    /// Packet type detected was not TCP or UDP. TCP/UDP checksum was
    /// therefore not generated. For IPv4 packets, the IP checksum was
    /// generated and inserted.
    NotTcpUdp,
    /// A premature end of packet was detected and the TCP/UDP checksum could
    /// not be generated.
    EndOfPacket,
}

/// The checksum error that a 3-bit code stands for; code 0 is no error.
pub open spec fn checksum_error_of_code(code: u32) -> Option<TxChecksumGenerationError> {
    if code == 1 {
        Some(TxChecksumGenerationError::VlanBadHeader)
    } else if code == 2 {
        Some(TxChecksumGenerationError::SnapBadHeader)
    } else if code == 3 {
        Some(TxChecksumGenerationError::IpBadPacket)
    } else if code == 4 {
        Some(TxChecksumGenerationError::NotIdentified)
    } else if code == 5 {
        Some(TxChecksumGenerationError::Fragmentation)
    } else if code == 6 {
        Some(TxChecksumGenerationError::NotTcpUdp)
    } else if code == 7 {
        Some(TxChecksumGenerationError::EndOfPacket)
    } else {
        None
    }
}

pub open spec fn checksum_error_code(error: Option<TxChecksumGenerationError>) -> u32 {
    match error {
        None => 0,
        Some(TxChecksumGenerationError::VlanBadHeader) => 1,
        Some(TxChecksumGenerationError::SnapBadHeader) => 2,
        Some(TxChecksumGenerationError::IpBadPacket) => 3,
        Some(TxChecksumGenerationError::NotIdentified) => 4,
        Some(TxChecksumGenerationError::Fragmentation) => 5,
        Some(TxChecksumGenerationError::NotTcpUdp) => 6,
        Some(TxChecksumGenerationError::EndOfPacket) => 7,
    }
}

pub open spec fn tx_checksum_error_of(word: u32) -> Option<TxChecksumGenerationError> {
    checksum_error_of_code((word >> TX_CHECKSUM_ERROR_SHIFT) & 7)
}

impl TxChecksumGenerationError {
    pub fn as_str(&self) -> (r: &'static str)
        ensures
            *self == TxChecksumGenerationError::VlanBadHeader ==> r@ == "VLAN bad header"@,
            *self == TxChecksumGenerationError::SnapBadHeader ==> r@ == "SNAP bad header"@,
            *self == TxChecksumGenerationError::IpBadPacket ==> r@ == "IP bad packet"@,
            *self == TxChecksumGenerationError::NotIdentified ==> r@ == "not VLAN, SNAP, or IP"@,
            *self == TxChecksumGenerationError::Fragmentation ==> r@ == "non-supported packet fragmentation"@,
            *self == TxChecksumGenerationError::NotTcpUdp ==> r@ == "not TCP or UDP"@,
            *self == TxChecksumGenerationError::EndOfPacket ==> r@ == "premature end of packet"@,
    {
        match self {
            TxChecksumGenerationError::VlanBadHeader => "VLAN bad header",
            TxChecksumGenerationError::SnapBadHeader => "SNAP bad header",
            TxChecksumGenerationError::IpBadPacket => "IP bad packet",
            TxChecksumGenerationError::NotIdentified => "not VLAN, SNAP, or IP",
            TxChecksumGenerationError::Fragmentation => "non-supported packet fragmentation",
            TxChecksumGenerationError::NotTcpUdp => "not TCP or UDP",
            TxChecksumGenerationError::EndOfPacket => "premature end of packet",
        }
    }
}

/// Transmit word 1 as composed from all of its fields.
pub open spec fn tx_word1(
    length: u32,
    last_buffer: bool,
    checksum_error: Option<TxChecksumGenerationError>,
    late_collision: bool,
    frame_corrupt: bool,
    underrun: bool,
    retry_limit: bool,
    wrap: BufferDescriptorListWrap,
    ownership: BufferDescriptorOwnership,
) -> u32 {
    length | flag_bits(last_buffer, TX_LAST_BUFFER_BIT) | (checksum_error_code(checksum_error)
        << TX_CHECKSUM_ERROR_SHIFT) | flag_bits(late_collision, TX_LATE_COLLISION_BIT) | flag_bits(
        frame_corrupt,
        TX_FRAME_CORRUPT_BIT,
    ) | flag_bits(underrun, TX_UNDERRUN_BIT) | flag_bits(retry_limit, TX_RETRY_LIMIT_BIT)
        | tx_wrap_bits(wrap) | tx_ownership_bits(ownership)
}

/// Decoding an encoded transmit word 1 gives back every field it was built
/// from, for every length that fits the 14-bit field.
pub proof fn lemma_tx_word1_round_trip(
    length: u32,
    last_buffer: bool,
    checksum_error: Option<TxChecksumGenerationError>,
    late_collision: bool,
    frame_corrupt: bool,
    underrun: bool,
    retry_limit: bool,
    wrap: BufferDescriptorListWrap,
    ownership: BufferDescriptorOwnership,
)
    requires
        length <= TX_LENGTH_MASK,
    ensures
        ({
            let w = tx_word1(
                length,
                last_buffer,
                checksum_error,
                late_collision,
                frame_corrupt,
                underrun,
                retry_limit,
                wrap,
                ownership,
            );
            &&& w & TX_LENGTH_MASK == length
            &&& bit_set(w, TX_LAST_BUFFER_BIT) == last_buffer
            &&& tx_checksum_error_of(w) == checksum_error
            &&& bit_set(w, TX_LATE_COLLISION_BIT) == late_collision
            &&& bit_set(w, TX_FRAME_CORRUPT_BIT) == frame_corrupt
            &&& bit_set(w, TX_UNDERRUN_BIT) == underrun
            &&& bit_set(w, TX_RETRY_LIMIT_BIT) == retry_limit
            &&& tx_wrap_of(w) == wrap
            &&& tx_ownership_of(w) == ownership
        }),
{
    let c = checksum_error_code(checksum_error);
    let a = flag_bits(last_buffer, TX_LAST_BUFFER_BIT);
    let b = flag_bits(late_collision, TX_LATE_COLLISION_BIT);
    let d = flag_bits(frame_corrupt, TX_FRAME_CORRUPT_BIT);
    let e = flag_bits(underrun, TX_UNDERRUN_BIT);
    let f = flag_bits(retry_limit, TX_RETRY_LIMIT_BIT);
    let g = tx_wrap_bits(wrap);
    let h = tx_ownership_bits(ownership);
    let w = length | a | (c << 20) | b | d | e | f | g | h;
    assert(c < 8);
    assert(w & 0x3FFF == length && ((w & 0x8000 != 0) == (a != 0)) && ((w >> 20) & 7 == c)
        && ((w & 0x0400_0000 != 0) == (b != 0)) && ((w & 0x0800_0000 != 0) == (d != 0))
        && ((w & 0x1000_0000 != 0) == (e != 0)) && ((w & 0x2000_0000 != 0) == (f != 0))
        && ((w & 0x4000_0000 != 0) == (g != 0)) && ((w & 0x8000_0000 != 0) == (h != 0)))
        by (bit_vector)
        requires
            w == length | a | (c << 20) | b | d | e | f | g | h,
            length <= 0x3FFF,
            c < 8,
            a == 0 || a == 0x8000,
            b == 0 || b == 0x0400_0000,
            d == 0 || d == 0x0800_0000,
            e == 0 || e == 0x1000_0000,
            f == 0 || f == 0x2000_0000,
            g == 0 || g == 0x4000_0000,
            h == 0 || h == 0x8000_0000,
    ;
}


/// The operations that receive and transmit descriptors share.
pub trait BufferDescriptor: Sized {
    /// The address of the buffer behind the descriptor.
    spec fn spec_address(&self) -> u32;

    spec fn spec_ownership(&self) -> BufferDescriptorOwnership;

    spec fn spec_wrapping(&self) -> BufferDescriptorListWrap;

    spec fn spec_end_of_frame(&self) -> bool;

    /// A descriptor for the word-aligned buffer at `address`, not at the end
    /// of its ring.
    fn new(address: u32) -> (r: Self)
        requires
            address % 4 == 0,
        ensures
            r.spec_address() == address,
            r.spec_wrapping() == BufferDescriptorListWrap::NoWrap,
            !r.spec_end_of_frame(),
    ;

    /// The same descriptor, marked as the last of its ring.
    fn end_of_list(self) -> (r: Self)
        ensures
            r.spec_address() == self.spec_address(),
            r.spec_ownership() == self.spec_ownership(),
            r.spec_wrapping() == BufferDescriptorListWrap::Wrap,
            r.spec_end_of_frame() == self.spec_end_of_frame(),
    ;

    fn address(&self) -> (r: u32)
        ensures
            r == self.spec_address(),
    ;

    fn ownership(&self) -> (r: BufferDescriptorOwnership)
        ensures
            r == self.spec_ownership(),
    ;

    /// Hands the buffer to the DMA engine.
    fn release(&mut self)
        ensures
            final(self).spec_ownership() == BufferDescriptorOwnership::Hardware,
            final(self).spec_address() == old(self).spec_address(),
            final(self).spec_wrapping() == old(self).spec_wrapping(),
            final(self).spec_end_of_frame() == old(self).spec_end_of_frame(),
    ;

    fn wrapping(&self) -> (r: BufferDescriptorListWrap)
        ensures
            r == self.spec_wrapping(),
    ;

    fn end_of_frame(&self) -> (r: bool)
        ensures
            r == self.spec_end_of_frame(),
    ;
}

/// A receive descriptor: word 0 holds the buffer address with the ownership
/// and wrap bits, word 1 the status that the DMA engine writes.
#[derive(Clone, Copy, Debug, PartialEq, Eq, Structural)]
pub struct RxBufferDescriptor {
    pub word0: u32,
    pub word1: u32,
}

impl RxBufferDescriptor {
    pub open spec fn spec_start_of_frame(&self) -> bool {
        bit_set(self.word1, RX_START_OF_FRAME_BIT)
    }

    /// The descriptor after a release: word 0 rebuilt with hardware ownership.
    pub open spec fn released(self) -> RxBufferDescriptor {
        RxBufferDescriptor {
            word0: rx_word0(
                self.word0 & RX_ADDRESS_MASK,
                rx_wrap_of(self.word0),
                BufferDescriptorOwnership::Hardware,
            ),
            word1: self.word1,
        }
    }

    pub fn start_of_frame(&self) -> (r: bool)
        ensures
            r == self.spec_start_of_frame(),
    {
        self.word1 & RX_START_OF_FRAME_BIT != 0
    }

    fn ownership_from_word(word: u32) -> (r: BufferDescriptorOwnership)
        ensures
            r == rx_ownership_of(word),
    {
        if word & RX_OWNERSHIP_BIT == 0 {
            BufferDescriptorOwnership::Hardware
        } else {
            BufferDescriptorOwnership::Software
        }
    }

    fn ownership_to_word(ownership: BufferDescriptorOwnership) -> (r: u32)
        ensures
            r == rx_ownership_bits(ownership),
    {
        match ownership {
            BufferDescriptorOwnership::Hardware => 0x0000_0000,
            BufferDescriptorOwnership::Software => RX_OWNERSHIP_BIT,
        }
    }

    fn wrapping_from_word(word: u32) -> (r: BufferDescriptorListWrap)
        ensures
            r == rx_wrap_of(word),
    {
        if word & RX_WRAP_BIT == 0 {
            BufferDescriptorListWrap::NoWrap
        } else {
            BufferDescriptorListWrap::Wrap
        }
    }

    fn wrapping_to_word(wrapping: BufferDescriptorListWrap) -> (r: u32)
        ensures
            r == rx_wrap_bits(wrapping),
    {
        match wrapping {
            BufferDescriptorListWrap::NoWrap => 0x0000_0000,
            BufferDescriptorListWrap::Wrap => RX_WRAP_BIT,
        }
    }
}

impl BufferDescriptor for RxBufferDescriptor {
    open spec fn spec_address(&self) -> u32 {
        self.word0 & RX_ADDRESS_MASK
    }

    open spec fn spec_ownership(&self) -> BufferDescriptorOwnership {
        rx_ownership_of(self.word0)
    }

    open spec fn spec_wrapping(&self) -> BufferDescriptorListWrap {
        rx_wrap_of(self.word0)
    }

    open spec fn spec_end_of_frame(&self) -> bool {
        bit_set(self.word1, RX_END_OF_FRAME_BIT)
    }

    /// Receive descriptors start out owned by the DMA engine, ready to
    /// receive.
    fn new(address: u32) -> (r: RxBufferDescriptor)
        ensures
            r.word0 == rx_word0(address, BufferDescriptorListWrap::NoWrap, BufferDescriptorOwnership::Hardware),
            r.word1 == 0,
            r.spec_ownership() == BufferDescriptorOwnership::Hardware,
            !r.spec_start_of_frame(),
    {
        let word0 = address | RxBufferDescriptor::wrapping_to_word(BufferDescriptorListWrap::NoWrap)
            | RxBufferDescriptor::ownership_to_word(BufferDescriptorOwnership::Hardware);
        proof {
            lemma_rx_word0_round_trip(address, BufferDescriptorListWrap::NoWrap, BufferDescriptorOwnership::Hardware);
        }
        assert(0u32 & 0x8000 == 0) by (bit_vector);
        assert(0u32 & 0x4000 == 0) by (bit_vector);
        RxBufferDescriptor { word0, word1: 0 }
    }

    fn end_of_list(self) -> (r: RxBufferDescriptor)
        ensures
            r.word0 == self.word0 | RX_WRAP_BIT,
            r.word1 == self.word1,
    {
        let word0 = self.word0 | RxBufferDescriptor::wrapping_to_word(BufferDescriptorListWrap::Wrap);
        let w = self.word0;
        assert((w | 2) & 0xFFFF_FFFC == w & 0xFFFF_FFFC && (w | 2) & 2 != 0 && ((w | 2) & 1 == 0) == (w & 1 == 0))
            by (bit_vector);
        RxBufferDescriptor { word0, word1: self.word1 }
    }

    fn address(&self) -> (r: u32) {
        self.word0 & RX_ADDRESS_MASK
    }

    fn ownership(&self) -> (r: BufferDescriptorOwnership) {
        RxBufferDescriptor::ownership_from_word(self.word0)
    }

    fn release(&mut self)
        ensures
            *final(self) == old(self).released(),
    {
        let address = self.address();
        let wrapping = self.wrapping();
        let word0 = address | RxBufferDescriptor::wrapping_to_word(wrapping)
            | RxBufferDescriptor::ownership_to_word(BufferDescriptorOwnership::Hardware);
        let w = self.word0;
        assert(address % 4 == 0) by (bit_vector)
            requires address == w & 0xFFFF_FFFC;
        proof {
            lemma_rx_word0_round_trip(address, wrapping, BufferDescriptorOwnership::Hardware);
        }
        self.word0 = word0;
    }

    fn wrapping(&self) -> (r: BufferDescriptorListWrap) {
        RxBufferDescriptor::wrapping_from_word(self.word0)
    }

    fn end_of_frame(&self) -> (r: bool) {
        self.word1 & RX_END_OF_FRAME_BIT != 0
    }
}


/// A transmit descriptor: word 0 holds the buffer address, word 1 the
/// length, the frame and error flags, the wrap bit and the ownership bit.
#[derive(Clone, Copy, Debug, PartialEq, Eq, Structural)]
pub struct TxBufferDescriptor {
    pub word0: u32,
    pub word1: u32,
}

impl TxBufferDescriptor {
    pub open spec fn spec_length(&self) -> u32 {
        self.word1 & TX_LENGTH_MASK
    }

    pub open spec fn spec_last_buffer(&self) -> bool {
        bit_set(self.word1, TX_LAST_BUFFER_BIT)
    }

    /// The descriptor after a release: the ownership bit cleared.
    pub open spec fn released(self) -> TxBufferDescriptor {
        TxBufferDescriptor { word0: self.word0, word1: self.word1 & !TX_OWNERSHIP_BIT }
    }

    /// The descriptor after a claim: the ownership bit set.
    pub open spec fn claimed(self) -> TxBufferDescriptor {
        TxBufferDescriptor { word0: self.word0, word1: self.word1 | TX_OWNERSHIP_BIT }
    }

    /// The descriptor with its length field replaced.
    pub open spec fn with_length(self, length: u32) -> TxBufferDescriptor {
        TxBufferDescriptor { word0: self.word0, word1: (self.word1 & !TX_LENGTH_MASK) | length }
    }

    /// The descriptor with its last-buffer flag replaced.
    pub open spec fn with_last_buffer(self, last: bool) -> TxBufferDescriptor {
        TxBufferDescriptor {
            word0: self.word0,
            word1: (self.word1 & !TX_LAST_BUFFER_BIT) | flag_bits(last, TX_LAST_BUFFER_BIT),
        }
    }

    pub fn length(&self) -> (r: u32)
        ensures
            r == self.spec_length(),
    {
        self.word1 & TX_LENGTH_MASK
    }

    pub fn set_length(&mut self, length: u32)
        requires
            length <= TX_LENGTH_MASK,
        ensures
            *final(self) == old(self).with_length(length),
    {
        self.word1 = (self.word1 & !TX_LENGTH_MASK) | length;
    }

    pub fn last_buffer(&self) -> (r: bool)
        ensures
            r == self.spec_last_buffer(),
    {
        self.word1 & TX_LAST_BUFFER_BIT != 0
    }

    pub fn set_last_buffer(&mut self, last: bool)
        ensures
            *final(self) == old(self).with_last_buffer(last),
    {
        let bits: u32 = if last {
            TX_LAST_BUFFER_BIT
        } else {
            0x0000_0000
        };
        self.word1 = (self.word1 & !TX_LAST_BUFFER_BIT) | bits;
    }

    /// Takes the buffer back for software, whatever the DMA engine reported.
    pub fn claim(&mut self)
        ensures
            *final(self) == old(self).claimed(),
            final(self).spec_ownership() == BufferDescriptorOwnership::Software,
            final(self).spec_wrapping() == old(self).spec_wrapping(),
    {
        let w = self.word1;
        assert((w | 0x8000_0000) & 0x8000_0000 != 0 && ((w | 0x8000_0000) & 0x4000_0000 == 0) == (w
            & 0x4000_0000 == 0)) by (bit_vector);
        self.word1 = self.word1 | TxBufferDescriptor::ownership_to_word(BufferDescriptorOwnership::Software);
    }

    pub fn error_retry_limit(&self) -> (r: bool)
        ensures
            r == bit_set(self.word1, TX_RETRY_LIMIT_BIT),
    {
        self.word1 & TX_RETRY_LIMIT_BIT != 0
    }

    pub fn error_tx_underrun(&self) -> (r: bool)
        ensures
            r == bit_set(self.word1, TX_UNDERRUN_BIT),
    {
        self.word1 & TX_UNDERRUN_BIT != 0
    }

    pub fn error_frame_corrupt(&self) -> (r: bool)
        ensures
            r == bit_set(self.word1, TX_FRAME_CORRUPT_BIT),
    {
        self.word1 & TX_FRAME_CORRUPT_BIT != 0
    }

    pub fn error_late_collision(&self) -> (r: bool)
        ensures
            r == bit_set(self.word1, TX_LATE_COLLISION_BIT),
    {
        self.word1 & TX_LATE_COLLISION_BIT != 0
    }

    /// The checksum generation error that bits 22..20 report, if any.
    pub fn error_checksum_generation(&self) -> (r: Option<TxChecksumGenerationError>)
        ensures
            r == tx_checksum_error_of(self.word1),
    {
        let code = (self.word1 >> TX_CHECKSUM_ERROR_SHIFT) & 7;
        if code == 1 {
            Some(TxChecksumGenerationError::VlanBadHeader)
        } else if code == 2 {
            Some(TxChecksumGenerationError::SnapBadHeader)
        } else if code == 3 {
            Some(TxChecksumGenerationError::IpBadPacket)
        } else if code == 4 {
            Some(TxChecksumGenerationError::NotIdentified)
        } else if code == 5 {
            Some(TxChecksumGenerationError::Fragmentation)
        } else if code == 6 {
            Some(TxChecksumGenerationError::NotTcpUdp)
        } else if code == 7 {
            Some(TxChecksumGenerationError::EndOfPacket)
        } else {
            None
        }
    }

    fn ownership_from_word(word: u32) -> (r: BufferDescriptorOwnership)
        ensures
            r == tx_ownership_of(word),
    {
        if word & TX_OWNERSHIP_BIT == 0 {
            BufferDescriptorOwnership::Hardware
        } else {
            BufferDescriptorOwnership::Software
        }
    }

    fn ownership_to_word(ownership: BufferDescriptorOwnership) -> (r: u32)
        ensures
            r == tx_ownership_bits(ownership),
    {
        match ownership {
            BufferDescriptorOwnership::Hardware => 0x0000_0000,
            BufferDescriptorOwnership::Software => TX_OWNERSHIP_BIT,
        }
    }

    fn wrapping_from_word(word: u32) -> (r: BufferDescriptorListWrap)
        ensures
            r == tx_wrap_of(word),
    {
        if word & TX_WRAP_BIT == 0 {
            BufferDescriptorListWrap::NoWrap
        } else {
            BufferDescriptorListWrap::Wrap
        }
    }

    fn wrapping_to_word(wrapping: BufferDescriptorListWrap) -> (r: u32)
        ensures
            r == tx_wrap_bits(wrapping),
    {
        match wrapping {
            BufferDescriptorListWrap::NoWrap => 0x0000_0000,
            BufferDescriptorListWrap::Wrap => TX_WRAP_BIT,
        }
    }
}

impl BufferDescriptor for TxBufferDescriptor {
    open spec fn spec_address(&self) -> u32 {
        self.word0
    }

    open spec fn spec_ownership(&self) -> BufferDescriptorOwnership {
        tx_ownership_of(self.word1)
    }

    open spec fn spec_wrapping(&self) -> BufferDescriptorListWrap {
        tx_wrap_of(self.word1)
    }

    open spec fn spec_end_of_frame(&self) -> bool {
        bit_set(self.word1, TX_LAST_BUFFER_BIT)
    }

    /// Transmit descriptors start out free for software to fill.
    fn new(address: u32) -> (r: TxBufferDescriptor)
        ensures
            r.word0 == address,
            r.word1 == TX_OWNERSHIP_BIT,
            r.spec_ownership() == BufferDescriptorOwnership::Software,
    {
        let word1 = TxBufferDescriptor::wrapping_to_word(BufferDescriptorListWrap::NoWrap)
            | TxBufferDescriptor::ownership_to_word(BufferDescriptorOwnership::Software);
        assert(0u32 | 0x8000_0000u32 == 0x8000_0000u32) by (bit_vector);
        assert(0x8000_0000u32 & 0x8000_0000u32 != 0 && 0x8000_0000u32 & 0x4000_0000u32 == 0
            && 0x8000_0000u32 & 0x8000u32 == 0) by (bit_vector);
        TxBufferDescriptor { word0: address, word1 }
    }

    fn end_of_list(self) -> (r: TxBufferDescriptor)
        ensures
            r.word0 == self.word0,
            r.word1 == self.word1 | TX_WRAP_BIT,
    {
        let word1 = self.word1 | TxBufferDescriptor::wrapping_to_word(BufferDescriptorListWrap::Wrap);
        let w = self.word1;
        assert((w | 0x4000_0000) & 0x4000_0000 != 0 && ((w | 0x4000_0000) & 0x8000_0000 == 0) == (w
            & 0x8000_0000 == 0) && ((w | 0x4000_0000) & 0x8000 == 0) == (w & 0x8000 == 0))
            by (bit_vector);
        TxBufferDescriptor { word0: self.word0, word1 }
    }

    fn address(&self) -> (r: u32) {
        self.word0
    }

    fn ownership(&self) -> (r: BufferDescriptorOwnership) {
        TxBufferDescriptor::ownership_from_word(self.word1)
    }

    fn release(&mut self)
        ensures
            *final(self) == old(self).released(),
    {
        let w = self.word1;
        assert((w & !0x8000_0000u32) & 0x8000_0000 == 0 && ((w & !0x8000_0000u32) & 0x4000_0000 == 0)
            == (w & 0x4000_0000 == 0) && ((w & !0x8000_0000u32) & 0x8000 == 0) == (w & 0x8000 == 0))
            by (bit_vector);
        self.word1 = self.word1 & !TxBufferDescriptor::ownership_to_word(BufferDescriptorOwnership::Software);
    }

    fn wrapping(&self) -> (r: BufferDescriptorListWrap) {
        TxBufferDescriptor::wrapping_from_word(self.word1)
    }

    fn end_of_frame(&self) -> (r: bool) {
        self.word1 & TX_LAST_BUFFER_BIT != 0
    }
}


/// Word-aligned byte storage behind the descriptors of one receive ring, one
/// 128-byte slice per descriptor.
pub struct RxRegion(pub Vec<u8>);

/// Word-aligned byte storage behind the descriptors of one transmit ring.
pub struct TxRegion(pub Vec<u8>);

/// The descriptor list of a receive ring, before the ring is set up.
pub struct RxDescriptors(Vec<RxBufferDescriptor>);

/// The descriptor list of a transmit ring, before the ring is set up.
pub struct TxDescriptors(Vec<TxBufferDescriptor>);

impl RxDescriptors {
    pub closed spec fn spec_list(&self) -> Seq<RxBufferDescriptor> {
        self.0@
    }

    pub open spec fn spec_len(&self) -> nat {
        self.spec_list().len()
    }

    /// The descriptors, whose storage stays where it is when a ring is
    /// built from them.
    pub fn as_slice(&self) -> (r: &[RxBufferDescriptor])
        ensures
            r@ == self.spec_list(),
    {
        self.0.as_slice()
    }

    /// `count` zeroed descriptors.
    pub fn new(count: usize) -> (r: RxDescriptors)
        ensures
            r.spec_len() == count,
            forall|i: int| 0 <= i < count ==> #[trigger] r.spec_list()[i] == (RxBufferDescriptor { word0: 0, word1: 0 }),
    {
        let mut list: Vec<RxBufferDescriptor> = Vec::new();
        let mut i: usize = 0;
        while i < count
            invariant
                i <= count,
                list@.len() == i,
                forall|j: int| 0 <= j < i ==> #[trigger] list@[j] == (RxBufferDescriptor { word0: 0, word1: 0 }),
            decreases count - i,
        {
            list.push(RxBufferDescriptor { word0: 0, word1: 0 });
            i = i + 1;
        }
        RxDescriptors(list)
    }
}

impl TxDescriptors {
    pub closed spec fn spec_list(&self) -> Seq<TxBufferDescriptor> {
        self.0@
    }

    pub open spec fn spec_len(&self) -> nat {
        self.spec_list().len()
    }

    /// The descriptors, whose storage stays where it is when a ring is
    /// built from them.
    pub fn as_slice(&self) -> (r: &[TxBufferDescriptor])
        ensures
            r@ == self.spec_list(),
    {
        self.0.as_slice()
    }

    /// `count` zeroed descriptors.
    pub fn new(count: usize) -> (r: TxDescriptors)
        ensures
            r.spec_len() == count,
            forall|i: int| 0 <= i < count ==> #[trigger] r.spec_list()[i] == (TxBufferDescriptor { word0: 0, word1: 0 }),
    {
        let mut list: Vec<TxBufferDescriptor> = Vec::new();
        let mut i: usize = 0;
        while i < count
            invariant
                i <= count,
                list@.len() == i,
                forall|j: int| 0 <= j < i ==> #[trigger] list@[j] == (TxBufferDescriptor { word0: 0, word1: 0 }),
            decreases count - i,
        {
            list.push(TxBufferDescriptor { word0: 0, word1: 0 });
            i = i + 1;
        }
        TxDescriptors(list)
    }
}

/// The wrap marker that a freshly built ring of `n` descriptors carries at
/// index `i`: only the last one wraps.
pub open spec fn ring_wrap(i: int, n: int) -> BufferDescriptorListWrap {
    if i == n - 1 {
        BufferDescriptorListWrap::Wrap
    } else {
        BufferDescriptorListWrap::NoWrap
    }
}

/// A ring of receive descriptors over its region.
pub struct RxBuffer {
    descriptors: Vec<RxBufferDescriptor>,
    region: Vec<u8>,
    address: u32,
}

impl RxBuffer {
    pub closed spec fn spec_descriptors(&self) -> Seq<RxBufferDescriptor> {
        self.descriptors@
    }

    pub closed spec fn spec_region(&self) -> Seq<u8> {
        self.region@
    }

    /// The bus address of the descriptor list.
    pub closed spec fn spec_list_address(&self) -> u32 {
        self.address
    }

    /// At least two descriptors, each with its 128-byte slice of the region.
    pub open spec fn wf(&self) -> bool {
        &&& self.spec_descriptors().len() >= 2
        &&& self.spec_region().len() == BUFFER_SIZE * self.spec_descriptors().len()
    }

    /// Partitions the region, whose bus address is `region_address`, into one
    /// 128-byte buffer per descriptor. Every descriptor starts owned by the
    /// DMA engine and only the last one wraps. `list_address` is the bus
    /// address of the descriptor list, which the DMA engine is given.
    pub fn new(
        region: RxRegion,
        region_address: u32,
        descriptors: RxDescriptors,
        list_address: u32,
    ) -> (r: RxBuffer)
        requires
            descriptors.spec_len() >= 2,
            region.0@.len() == BUFFER_SIZE * descriptors.spec_len(),
            region_address % 4 == 0,
            region_address + BUFFER_SIZE * descriptors.spec_len() <= 0x1_0000_0000,
        ensures
            r.wf(),
            r.spec_descriptors().len() == descriptors.spec_len(),
            r.spec_region() == region.0@,
            r.spec_list_address() == list_address,
            forall|i: int|
                0 <= i < r.spec_descriptors().len() ==> #[trigger] r.spec_descriptors()[i] == (
                RxBufferDescriptor {
                    word0: rx_word0(
                        (region_address + BUFFER_SIZE * i) as u32,
                        ring_wrap(i, r.spec_descriptors().len() as int),
                        BufferDescriptorOwnership::Hardware,
                    ),
                    word1: 0,
                }),
            forall|i: int|
                0 <= i < r.spec_descriptors().len() ==> {
                    let d = #[trigger] r.spec_descriptors()[i];
                    &&& d.spec_address() == region_address + BUFFER_SIZE * i
                    &&& d.spec_ownership() == BufferDescriptorOwnership::Hardware
                    &&& (d.spec_wrapping() == BufferDescriptorListWrap::Wrap <==> i
                        == r.spec_descriptors().len() - 1)
                },
    {
        let n = descriptors.0.len();
        let mut list = descriptors.0;
        let mut i: usize = 0;
        while i < n
            invariant
                n >= 2,
                i <= n,
                region_address % 4 == 0,
                region_address + BUFFER_SIZE * n <= 0x1_0000_0000,
                list@.len() == n,
                forall|k: int|
                    0 <= k < i ==> #[trigger] list@[k] == (RxBufferDescriptor {
                        word0: rx_word0(
                            (region_address + BUFFER_SIZE * k) as u32,
                            ring_wrap(k, n as int),
                            BufferDescriptorOwnership::Hardware,
                        ),
                        word1: 0,
                    }),
                forall|k: int|
                    0 <= k < i ==> {
                        let d = #[trigger] list@[k];
                        &&& d.spec_address() == region_address + BUFFER_SIZE * k
                        &&& d.spec_ownership() == BufferDescriptorOwnership::Hardware
                        &&& (d.spec_wrapping() == BufferDescriptorListWrap::Wrap <==> k == n - 1)
                    },
            decreases n - i,
        {
            let address = region_address + (BUFFER_SIZE as u32) * (i as u32);
            assert(address % 4 == 0);
            let d = RxBufferDescriptor::new(address);
            let d = if i == n - 1 {
                d.end_of_list()
            } else {
                d
            };
            proof {
                let wrap = ring_wrap(i as int, n as int);
                lemma_rx_word0_round_trip(address, wrap, BufferDescriptorOwnership::Hardware);
                assert((address | 0 | 0) | 2 == address | 2 | 0) by (bit_vector);
                assert(address | 0 | 0 == address) by (bit_vector);
            }
            list.set(i, d);
            i = i + 1;
        }
        RxBuffer { descriptors: list, region: region.0, address: list_address }
    }

    pub fn len(&self) -> (r: usize)
        ensures
            r == self.spec_descriptors().len(),
            self.wf() ==> BUFFER_SIZE * r <= usize::MAX,
    {
        let _ = self.region.len();
        self.descriptors.len()
    }

    pub fn descriptors(&self) -> (r: &[RxBufferDescriptor])
        ensures
            r@ == self.spec_descriptors(),
    {
        self.descriptors.as_slice()
    }

    /// Write access to the descriptors, as the DMA engine has it.
    pub fn descriptors_mut(&mut self) -> (r: &mut [RxBufferDescriptor])
        ensures
            r@ == old(self).spec_descriptors(),
            final(self).spec_descriptors() == final(r)@,
            final(self).spec_region() == old(self).spec_region(),
            final(self).spec_list_address() == old(self).spec_list_address(),
    {
        self.descriptors.as_mut_slice()
    }

    /// The bus address of the descriptor list.
    pub fn address(&self) -> (r: u32)
        ensures
            r == self.spec_list_address(),
    {
        self.address
    }

    pub fn region(&self) -> (r: &[u8])
        ensures
            r@ == self.spec_region(),
    {
        self.region.as_slice()
    }

    /// Hands descriptor `i` back to the DMA engine.
    pub fn release_at(&mut self, i: usize)
        requires
            i < old(self).spec_descriptors().len(),
        ensures
            final(self).spec_descriptors() == old(self).spec_descriptors().update(
                i as int,
                old(self).spec_descriptors()[i as int].released(),
            ),
            final(self).spec_region() == old(self).spec_region(),
            final(self).spec_list_address() == old(self).spec_list_address(),
    {
        let mut d = self.descriptors[i];
        d.release();
        self.descriptors.set(i, d);
    }

    /// Write access to the buffers, as the DMA engine has it.
    pub fn region_mut(&mut self) -> (r: &mut [u8])
        ensures
            r@ == old(self).spec_region(),
            final(self).spec_region() == final(r)@,
            final(self).spec_descriptors() == old(self).spec_descriptors(),
            final(self).spec_list_address() == old(self).spec_list_address(),
    {
        self.region.as_mut_slice()
    }
}


/// The ring index that a transmit queue pointer register value designates,
/// for a list of `n` descriptors of 8 bytes at bus address `base`. The
/// register's two low bits are not part of the address; the offset is taken
/// modulo 2^32, as the 32-bit bus does, and the index modulo `n`.
pub open spec fn queue_index_of(register: u32, base: u32, n: nat) -> int {
    let a = register & 0xFFFF_FFFC;
    let offset: int = if a >= base {
        a - base
    } else {
        a - base + 0x1_0000_0000
    };
    (offset / 8) % (n as int)
}

/// A ring of transmit descriptors over its region.
pub struct TxBuffer {
    descriptors: Vec<TxBufferDescriptor>,
    region: Vec<u8>,
    address: u32,
}

impl TxBuffer {
    pub closed spec fn spec_descriptors(&self) -> Seq<TxBufferDescriptor> {
        self.descriptors@
    }

    pub closed spec fn spec_region(&self) -> Seq<u8> {
        self.region@
    }

    /// The bus address of the descriptor list.
    pub closed spec fn spec_list_address(&self) -> u32 {
        self.address
    }

    /// At least two descriptors, each with its 128-byte slice of the region.
    pub open spec fn wf(&self) -> bool {
        &&& self.spec_descriptors().len() >= 2
        &&& self.spec_region().len() == BUFFER_SIZE * self.spec_descriptors().len()
    }

    /// Partitions the region, whose bus address is `region_address`, into one
    /// 128-byte buffer per descriptor. Every descriptor starts free for
    /// software and only the last one wraps. `list_address` is the bus
    /// address of the descriptor list, which the DMA engine is given.
    pub fn new(
        region: TxRegion,
        region_address: u32,
        descriptors: TxDescriptors,
        list_address: u32,
    ) -> (r: TxBuffer)
        requires
            descriptors.spec_len() >= 2,
            region.0@.len() == BUFFER_SIZE * descriptors.spec_len(),
            region_address % 4 == 0,
            region_address + BUFFER_SIZE * descriptors.spec_len() <= 0x1_0000_0000,
        ensures
            r.wf(),
            r.spec_descriptors().len() == descriptors.spec_len(),
            r.spec_region() == region.0@,
            r.spec_list_address() == list_address,
            forall|i: int|
                0 <= i < r.spec_descriptors().len() ==> #[trigger] r.spec_descriptors()[i] == (
                TxBufferDescriptor {
                    word0: (region_address + BUFFER_SIZE * i) as u32,
                    word1: tx_wrap_bits(ring_wrap(i, r.spec_descriptors().len() as int))
                        | TX_OWNERSHIP_BIT,
                }),
            forall|i: int|
                0 <= i < r.spec_descriptors().len() ==> {
                    let d = #[trigger] r.spec_descriptors()[i];
                    &&& d.spec_address() == region_address + BUFFER_SIZE * i
                    &&& d.spec_ownership() == BufferDescriptorOwnership::Software
                    &&& (d.spec_wrapping() == BufferDescriptorListWrap::Wrap <==> i
                        == r.spec_descriptors().len() - 1)
                },
    {
        let n = descriptors.0.len();
        let mut list = descriptors.0;
        let mut i: usize = 0;
        while i < n
            invariant
                n >= 2,
                i <= n,
                region_address % 4 == 0,
                region_address + BUFFER_SIZE * n <= 0x1_0000_0000,
                list@.len() == n,
                forall|k: int|
                    0 <= k < i ==> #[trigger] list@[k] == (TxBufferDescriptor {
                        word0: (region_address + BUFFER_SIZE * k) as u32,
                        word1: tx_wrap_bits(ring_wrap(k, n as int)) | TX_OWNERSHIP_BIT,
                    }),
                forall|k: int|
                    0 <= k < i ==> {
                        let d = #[trigger] list@[k];
                        &&& d.spec_address() == region_address + BUFFER_SIZE * k
                        &&& d.spec_ownership() == BufferDescriptorOwnership::Software
                        &&& (d.spec_wrapping() == BufferDescriptorListWrap::Wrap <==> k == n - 1)
                    },
            decreases n - i,
        {
            let address = region_address + (BUFFER_SIZE as u32) * (i as u32);
            assert(address % 4 == 0);
            let d = TxBufferDescriptor::new(address);
            let d = if i == n - 1 {
                d.end_of_list()
            } else {
                d
            };
            proof {
                assert(0x8000_0000u32 | 0x4000_0000u32 == 0x4000_0000u32 | 0x8000_0000u32) by (bit_vector);
                assert(0u32 | 0x8000_0000u32 == 0x8000_0000u32) by (bit_vector);
                assert((0x4000_0000u32 | 0x8000_0000u32) & 0x8000_0000 != 0 && (0x4000_0000u32
                    | 0x8000_0000u32) & 0x4000_0000 != 0) by (bit_vector);
                assert(0x8000_0000u32 & 0x8000_0000 != 0 && 0x8000_0000u32 & 0x4000_0000 == 0)
                    by (bit_vector);
            }
            list.set(i, d);
            i = i + 1;
        }
        TxBuffer { descriptors: list, region: region.0, address: list_address }
    }

    pub fn len(&self) -> (r: usize)
        ensures
            r == self.spec_descriptors().len(),
            self.wf() ==> BUFFER_SIZE * r <= usize::MAX,
    {
        let _ = self.region.len();
        self.descriptors.len()
    }

    pub fn descriptors(&self) -> (r: &[TxBufferDescriptor])
        ensures
            r@ == self.spec_descriptors(),
    {
        self.descriptors.as_slice()
    }

    /// Write access to the descriptors, as the DMA engine has it.
    pub fn descriptors_mut(&mut self) -> (r: &mut [TxBufferDescriptor])
        ensures
            r@ == old(self).spec_descriptors(),
            final(self).spec_descriptors() == final(r)@,
            final(self).spec_region() == old(self).spec_region(),
            final(self).spec_list_address() == old(self).spec_list_address(),
    {
        self.descriptors.as_mut_slice()
    }

    /// The bus address of the descriptor list.
    pub fn address(&self) -> (r: u32)
        ensures
            r == self.spec_list_address(),
    {
        self.address
    }

    pub fn region(&self) -> (r: &[u8])
        ensures
            r@ == self.spec_region(),
    {
        self.region.as_slice()
    }

    /// Takes descriptor `i` back for software.
    pub fn claim_at(&mut self, i: usize)
        requires
            i < old(self).spec_descriptors().len(),
        ensures
            final(self).spec_descriptors() == old(self).spec_descriptors().update(
                i as int,
                old(self).spec_descriptors()[i as int].claimed(),
            ),
            final(self).spec_region() == old(self).spec_region(),
            final(self).spec_list_address() == old(self).spec_list_address(),
    {
        let mut d = self.descriptors[i];
        d.claim();
        self.descriptors.set(i, d);
    }

    /// Hands descriptor `i` to the DMA engine.
    pub fn release_at(&mut self, i: usize)
        requires
            i < old(self).spec_descriptors().len(),
        ensures
            final(self).spec_descriptors() == old(self).spec_descriptors().update(
                i as int,
                old(self).spec_descriptors()[i as int].released(),
            ),
            final(self).spec_region() == old(self).spec_region(),
            final(self).spec_list_address() == old(self).spec_list_address(),
    {
        let mut d = self.descriptors[i];
        d.release();
        self.descriptors.set(i, d);
    }

    pub fn set_length_at(&mut self, i: usize, length: u32)
        requires
            i < old(self).spec_descriptors().len(),
            length <= TX_LENGTH_MASK,
        ensures
            final(self).spec_descriptors() == old(self).spec_descriptors().update(
                i as int,
                old(self).spec_descriptors()[i as int].with_length(length),
            ),
            final(self).spec_region() == old(self).spec_region(),
            final(self).spec_list_address() == old(self).spec_list_address(),
    {
        let mut d = self.descriptors[i];
        d.set_length(length);
        self.descriptors.set(i, d);
    }

    pub fn set_last_buffer_at(&mut self, i: usize, last: bool)
        requires
            i < old(self).spec_descriptors().len(),
        ensures
            final(self).spec_descriptors() == old(self).spec_descriptors().update(
                i as int,
                old(self).spec_descriptors()[i as int].with_last_buffer(last),
            ),
            final(self).spec_region() == old(self).spec_region(),
            final(self).spec_list_address() == old(self).spec_list_address(),
    {
        let mut d = self.descriptors[i];
        d.set_last_buffer(last);
        self.descriptors.set(i, d);
    }

    /// Stores one byte of the region.
    pub fn write_byte(&mut self, p: usize, value: u8)
        requires
            p < old(self).spec_region().len(),
        ensures
            final(self).spec_region() == old(self).spec_region().update(p as int, value),
            final(self).spec_descriptors() == old(self).spec_descriptors(),
            final(self).spec_list_address() == old(self).spec_list_address(),
    {
        self.region.set(p, value);
    }

    /// The ring index at which the DMA engine's transmit queue pointer
    /// stands, given the raw value of that register.
    pub fn queue_index(&self, register: u32) -> (r: usize)
        requires
            self.wf(),
        ensures
            r == queue_index_of(register, self.spec_list_address(), self.spec_descriptors().len()),
            r < self.spec_descriptors().len(),
    {
        let a = register & 0xFFFF_FFFC;
        let offset = a.wrapping_sub(self.address);
        ((offset / 8) as usize) % self.descriptors.len()
    }
}

} // verus!
