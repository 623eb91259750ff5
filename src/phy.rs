//! The PHY side: standard management registers, the management bus that
//! reaches them, and discovery of the PHY's address on that bus.
use vstd::prelude::*;

verus! {

/// A PHY management register, standard or vendor-numbered.
#[derive(Clone, Copy, Debug, PartialEq, Eq, Structural)]
pub enum Register {
    BasicControl,
    BasicStatus,
    PhyId1,
    PhyId2,
    AutoAdvertisement,
    AutoPartnerAbility,
    AutoExpansion,
    AutoNextPage,
    AutoPartnerNextPageAbility,
    MmdControl,
    MmdRegisterData,
    Vendor(u8),
}

/// The register number that the management bus carries for a register.
pub open spec fn register_code(register: Register) -> u8 {
    match register {
        Register::BasicControl => 0x00,
        Register::BasicStatus => 0x01,
        Register::PhyId1 => 0x02,
        Register::PhyId2 => 0x03,
        Register::AutoAdvertisement => 0x04,
        Register::AutoPartnerAbility => 0x05,
        Register::AutoExpansion => 0x06,
        Register::AutoNextPage => 0x07,
        Register::AutoPartnerNextPageAbility => 0x08,
        Register::MmdControl => 0x0D,
        Register::MmdRegisterData => 0x0E,
        Register::Vendor(addr) => addr,
    }
}

impl From<Register> for u8 {
    fn from(register: Register) -> (r: u8)
        ensures
            r == register_code(register),
    {
        match register {
            Register::BasicControl => 0x00,
            Register::BasicStatus => 0x01,
            Register::PhyId1 => 0x02,
            Register::PhyId2 => 0x03,
            Register::AutoAdvertisement => 0x04,
            Register::AutoPartnerAbility => 0x05,
            Register::AutoExpansion => 0x06,
            Register::AutoNextPage => 0x07,
            Register::AutoPartnerNextPageAbility => 0x08,
            Register::MmdControl => 0x0D,
            Register::MmdRegisterData => 0x0E,
            Register::Vendor(addr) => addr,
        }
    }
}

impl vstd::std_specs::convert::FromSpecImpl<Register> for u8 {
    open spec fn obeys_from_spec() -> bool {
        true
    }

    open spec fn from_spec(v: Register) -> u8 {
        register_code(v)
    }
}

/// An organizationally unique identifier, most significant byte first.
#[derive(Clone, Copy, Debug)]
pub struct Oui(pub [u8; 3]);

/// Access to the PHY management registers.
pub trait Mdio {
    /// The identifier pair, registers 2 and 3, of the PHY at `address`. The
    /// hardware fixes it: it cannot be written.
    spec fn phy_identifier(&self, address: u8) -> (u16, u16);

    fn read(&self, address: u8, register: Register) -> (r: u16)
        ensures
            register_code(register) == 2 ==> r == self.phy_identifier(address).0,
            register_code(register) == 3 ==> r == self.phy_identifier(address).1,
    ;

    fn write(&mut self, address: u8, register: Register, data: u16)
        ensures
            forall|a: u8| #[trigger] final(self).phy_identifier(a) == old(self).phy_identifier(a),
    ;
}

/// A PHY driver.
pub trait Phy {
    /// What an interrupt from the PHY reported.
    type Interrupts;

    fn oui<M: Mdio>(&self, mdio: &M) -> Oui;

    /// Reads and acknowledges the PHY's interrupt status.
    fn irq<M: Mdio>(&mut self, mdio: &mut M) -> Self::Interrupts;
}

/// Whether an identifier pair read at some address shows a PHY there: the
/// patterns of an absent PHY (all zeros, all ones, 0x3FFF) are excluded.
pub open spec fn phy_id_present(id1: u16, id2: u16) -> bool {
    ||| (id1 != 0x0000 && id1 != 0x3FFF && id2 != 0x0000 && id2 != 0xFFFF)
    ||| (id1 != 0x0000 && id1 != 0x3FFF && id1 != 0xFFFF)
    ||| (id2 != 0x0000 && id2 != 0x3FFF && id2 != 0xFFFF)
}

pub open spec fn phy_present_at<M: Mdio>(mdio: &M, address: u8) -> bool {
    phy_id_present(mdio.phy_identifier(address).0, mdio.phy_identifier(address).1)
}

pub fn phy_present(id1: u16, id2: u16) -> (r: bool)
    ensures
        r == phy_id_present(id1, id2),
{
    id1 != 0x0000 && id1 != 0x3FFF && id2 != 0x0000 && id2 != 0xFFFF || id1 != 0x0000 && id1
        != 0x3FFF && id1 != 0xFFFF || id2 != 0x0000 && id2 != 0x3FFF && id2 != 0xFFFF
}

/// Scans the 32 PHY addresses in order and returns the first at which a PHY
/// answers.
pub fn probe_addr<M: Mdio>(mdio: &M) -> (r: Option<u8>)
    ensures
        match r {
            Some(a) => a < 32 && phy_present_at(mdio, a) && forall|b: u8|
                b < a ==> !phy_present_at(mdio, b),
            None => forall|b: u8| b < 32 ==> !phy_present_at(mdio, b),
        },
{
    let mut addr: u8 = 0;
    while addr < 32
        invariant
            addr <= 32,
            forall|b: u8| b < addr ==> !phy_present_at(mdio, b),
        decreases 32 - addr,
    {
        let id1 = mdio.read(addr, Register::PhyId1);
        let id2 = mdio.read(addr, Register::PhyId2);
        if phy_present(id1, id2) {
            return Some(addr);
        }
        addr = addr + 1;
    }
    None
}

/// The operation of a management frame.
#[derive(Clone, Copy, Debug, PartialEq, Eq, Structural)]
pub enum MdioOperation {
    Read,
    Write,
}

pub open spec fn operation_code(operation: MdioOperation) -> u32 {
    match operation {
        MdioOperation::Read => 0b10,
        MdioOperation::Write => 0b01,
    }
}

/// The management register word that starts one bus transaction: data in
/// bits 15..0, the fixed turnaround code 0b10 in bits 17..16, the register
/// in bits 22..18, the PHY address in bits 27..23, the operation in bits
/// 29..28 and the start code 0b01 in bits 31..30. Address and register are
/// cut to their 5 bits.
pub fn management_frame(address: u8, register: Register, operation: MdioOperation, data: u16) -> (r: u32)
    ensures
        r & 0xFFFF == data,
        (r >> 16) & 3 == 2,
        (r >> 18) & 0x1F == register_code(register) & 0x1F,
        (r >> 23) & 0x1F == address & 0x1F,
        (r >> 28) & 3 == operation_code(operation),
        r >> 30 == 1,
{
    let code = u8::from(register);
    assert(code & 0x1F <= 0x1F && address & 0x1F <= 0x1F) by (bit_vector);
    let reg = (code & 0x1F) as u32;
    let phy = (address & 0x1F) as u32;
    let op: u32 = match operation {
        MdioOperation::Read => 0b10,
        MdioOperation::Write => 0b01,
    };
    let d = data as u32;
    let r = d | (0b10u32 << 16) | (reg << 18) | (phy << 23) | (op << 28) | (1u32 << 30);
    assert(r & 0xFFFF == d && (r >> 16) & 3 == 2 && (r >> 18) & 0x1F == reg && (r >> 23) & 0x1F == phy
        && (r >> 28) & 3 == op && r >> 30 == 1) by (bit_vector)
        requires
            r == d | (0b10u32 << 16) | (reg << 18) | (phy << 23) | (op << 28) | (1u32 << 30),
            d <= 0xFFFF,
            reg <= 0x1F,
            phy <= 0x1F,
            op <= 3,
    ;
    let ghost rc = register_code(register);
    assert(reg == rc & 0x1F) by (bit_vector)
        requires
            reg == (code & 0x1F) as u32,
            code == rc,
    ;
    r
}

/// The data that a completed read left in the management register.
pub fn management_data(word: u32) -> (r: u16)
    ensures
        r == word & 0xFFFF,
{
    assert(word & 0xFFFF <= 0xFFFF) by (bit_vector);
    (word & 0xFFFF) as u16
}

} // verus!
