//! The Microchip KSZ8091 PHY.
use vstd::prelude::*;
use crate::phy::{Mdio, Oui, Phy, Register};

verus! {

/// The vendor register that holds the interrupt control and status bits.
pub const INTERRUPT_REGISTER: u8 = 0x1B;
/// Enables the link-up and link-down interrupts.
pub const INTERRUPT_ENABLE_LINK: u16 = 0x0500;

pub struct KSZ8091 {
    address: u8,
}

/// What the KSZ8091's interrupt status bits report.
#[derive(Clone, Copy, Debug, PartialEq, Eq, Structural)]
pub struct InterruptStatus {
    pub jabber: bool,
    pub receive_error: bool,
    pub page_received: bool,
    pub parallel_detect_fault: bool,
    pub link_partner_ack: bool,
    pub link_down: bool,
    pub remote_fault: bool,
    pub link_up: bool,
}

pub open spec fn status_bit(status: u8, bit: u8) -> bool {
    (status >> bit) & 1 == 1
}

/// Decodes the low byte of the interrupt register.
pub fn decode_interrupt_status(status: u8) -> (r: InterruptStatus)
    ensures
        r.jabber == status_bit(status, 7),
        r.receive_error == status_bit(status, 6),
        r.page_received == status_bit(status, 5),
        r.parallel_detect_fault == status_bit(status, 4),
        r.link_partner_ack == status_bit(status, 3),
        r.link_down == status_bit(status, 2),
        r.remote_fault == status_bit(status, 1),
        r.link_up == status_bit(status, 0),
{
    assert(status >> 0u8 == status) by (bit_vector);
    InterruptStatus {
        jabber: (status >> 7) & 1 == 1,
        receive_error: (status >> 6) & 1 == 1,
        page_received: (status >> 5) & 1 == 1,
        parallel_detect_fault: (status >> 4) & 1 == 1,
        link_partner_ack: (status >> 3) & 1 == 1,
        link_down: (status >> 2) & 1 == 1,
        remote_fault: (status >> 1) & 1 == 1,
        link_up: status & 1 == 1,
    }
}

pub open spec fn bit_of(x: u32, i: u32) -> u32 {
    (x >> i) & 1
}

/// Relies on `u32::reverse_bits`: the least significant bit becomes the
/// most significant one, and so on.
#[verifier::external_body]
fn reverse_bits(x: u32) -> (r: u32)
    ensures
        forall|i: u32| i < 32 ==> #[trigger] bit_of(r, i) == bit_of(x, (31 - i) as u32),
{
    x.reverse_bits()
}

/// The identifier bits that carry the OUI: bits 3 to 18 of the OUI are in
/// bits 15..0 of the first identifier register, bits 19 to 24 in bits
/// 15..10 of the second.
pub open spec fn oui_word(id1: u16, id2: u16) -> u32 {
    ((id1 as u32) << 14) | ((id2 as u32) >> 2)
}

/// The OUI that an identifier pair reports. Read in bit order, the OUI is
/// the identifier bits reversed: bit `i` of the first byte is bit `31 - i`
/// of [`oui_word`], of the second byte bit `23 - i`, of the third `15 - i`.
pub fn oui_from_identifier(id1: u16, id2: u16) -> (r: Oui)
    ensures
        forall|i: u32|
            i < 8 ==> {
                &&& #[trigger] bit_of(r.0[0] as u32, i) == bit_of(oui_word(id1, id2), (31 - i) as u32)
                &&& bit_of(r.0[1] as u32, i) == bit_of(oui_word(id1, id2), (23 - i) as u32)
                &&& bit_of(r.0[2] as u32, i) == bit_of(oui_word(id1, id2), (15 - i) as u32)
            },
{
    let w = ((id1 as u32) << 14) | ((id2 as u32) >> 2);
    let oui = reverse_bits(w);
    let b0 = oui as u8;
    let b1 = (oui >> 8) as u8;
    let b2 = (oui >> 16) as u8;
    assert forall|i: u32| i < 8 implies {
        &&& #[trigger] bit_of(b0 as u32, i) == bit_of(w, (31 - i) as u32)
        &&& bit_of(b1 as u32, i) == bit_of(w, (23 - i) as u32)
        &&& bit_of(b2 as u32, i) == bit_of(w, (15 - i) as u32)
    } by {
        assert(bit_of(oui, i) == bit_of(w, (31 - i) as u32));
        assert(bit_of(oui, (i + 8) as u32) == bit_of(w, (31 - (i + 8)) as u32));
        assert(bit_of(oui, (i + 16) as u32) == bit_of(w, (31 - (i + 16)) as u32));
        assert(((oui as u8) as u32 >> i) & 1 == (oui >> i) & 1 && (((oui >> 8) as u8) as u32 >> i)
            & 1 == (oui >> (i + 8) as u32) & 1 && (((oui >> 16) as u8) as u32 >> i) & 1 == (oui
            >> (i + 16) as u32) & 1) by (bit_vector)
            requires
                i < 8,
        ;
    }
    let r = Oui([b0, b1, b2]);
    assert(r.0[0] == b0 && r.0[1] == b1 && r.0[2] == b2);
    r
}

impl KSZ8091 {
    pub closed spec fn spec_address(&self) -> u8 {
        self.address
    }

    /// The driver of the KSZ8091 at `address`, with its link-up and
    /// link-down interrupts enabled.
    pub fn new<M: Mdio>(address: u8, mdio: &mut M) -> (r: KSZ8091)
        ensures
            r.spec_address() == address,
    {
        mdio.write(address, Register::Vendor(INTERRUPT_REGISTER), INTERRUPT_ENABLE_LINK);
        KSZ8091 { address }
    }

    pub fn address(&self) -> (r: u8)
        ensures
            r == self.spec_address(),
    {
        self.address
    }
}

impl Phy for KSZ8091 {
    type Interrupts = InterruptStatus;

    fn oui<M: Mdio>(&self, mdio: &M) -> (r: Oui)
        ensures
            ({
                let (id1, id2) = mdio.phy_identifier(self.spec_address());
                forall|i: u32|
                    i < 8 ==> {
                        &&& #[trigger] bit_of(r.0[0] as u32, i) == bit_of(oui_word(id1, id2), (31 - i) as u32)
                        &&& bit_of(r.0[1] as u32, i) == bit_of(oui_word(id1, id2), (23 - i) as u32)
                        &&& bit_of(r.0[2] as u32, i) == bit_of(oui_word(id1, id2), (15 - i) as u32)
                    }
            }),
    {
        let id1 = mdio.read(self.address, Register::PhyId1);
        let id2 = mdio.read(self.address, Register::PhyId2);
        oui_from_identifier(id1, id2)
    }

    fn irq<M: Mdio>(&mut self, mdio: &mut M) -> (r: InterruptStatus) {
        let status = mdio.read(self.address, Register::Vendor(INTERRUPT_REGISTER)) as u8;
        decode_interrupt_status(status)
    }
}

} // verus!
