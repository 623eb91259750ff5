use efm32gg_net::ksz8091::{decode_interrupt_status, oui_from_identifier, KSZ8091};
use efm32gg_net::mac::{address_filter, station_address, Mac};
use efm32gg_net::phy::{
    management_data, management_frame, phy_present, probe_addr, Mdio, MdioOperation, Phy, Register,
};

/// A management bus with a fixed identifier pair per address.
struct SimulatedBus {
    ids: [(u16, u16); 32],
    writes: Vec<(u8, u8, u16)>,
}

impl SimulatedBus {
    fn with_phy_at(address: usize, id1: u16, id2: u16) -> SimulatedBus {
        let mut ids = [(0u16, 0u16); 32];
        ids[address] = (id1, id2);
        SimulatedBus { ids, writes: Vec::new() }
    }
}

impl Mdio for SimulatedBus {
    fn phy_identifier(&self, address: u8) -> (u16, u16) {
        self.ids[address as usize % 32]
    }

    fn read(&self, address: u8, register: Register) -> u16 {
        match u8::from(register) {
            2 => self.phy_identifier(address).0,
            3 => self.phy_identifier(address).1,
            _ => 0,
        }
    }

    fn write(&mut self, address: u8, register: Register, data: u16) {
        self.writes.push((address, u8::from(register), data));
    }
}

#[test]
fn probe_finds_phy_at_address_seven() {
    let bus = SimulatedBus::with_phy_at(7, 0x0022, 0x1560);
    assert_eq!(probe_addr(&bus), Some(7));
}

#[test]
fn probe_finds_nothing_on_empty_bus() {
    let bus = SimulatedBus { ids: [(0, 0); 32], writes: Vec::new() };
    assert_eq!(probe_addr(&bus), None);
    let bus = SimulatedBus { ids: [(0xFFFF, 0xFFFF); 32], writes: Vec::new() };
    assert_eq!(probe_addr(&bus), None);
}

#[test]
fn probe_takes_lowest_address() {
    let mut bus = SimulatedBus::with_phy_at(20, 0x0022, 0x1560);
    bus.ids[3] = (0x0007, 0xC0F1);
    assert_eq!(probe_addr(&bus), Some(3));
}

#[test]
fn absent_phy_patterns() {
    assert!(!phy_present(0x0000, 0x0000));
    assert!(!phy_present(0xFFFF, 0xFFFF));
    assert!(!phy_present(0x3FFF, 0xFFFF));
    assert!(!phy_present(0x0000, 0x3FFF));
    assert!(!phy_present(0x3FFF, 0x0000));
    assert!(phy_present(0x0022, 0x1560));
    assert!(phy_present(0x0000, 0x1560));
    assert!(phy_present(0x0022, 0x0000));
    assert!(phy_present(0xFFFF, 0x1560));
}

#[test]
fn register_numbers() {
    assert_eq!(u8::from(Register::BasicControl), 0x00);
    assert_eq!(u8::from(Register::PhyId1), 0x02);
    assert_eq!(u8::from(Register::PhyId2), 0x03);
    assert_eq!(u8::from(Register::AutoAdvertisement), 0x04);
    assert_eq!(u8::from(Register::MmdControl), 0x0D);
    assert_eq!(u8::from(Register::MmdRegisterData), 0x0E);
    assert_eq!(u8::from(Register::Vendor(0x1B)), 0x1B);
}

#[test]
fn management_frame_words() {
    assert_eq!(management_frame(7, Register::PhyId1, MdioOperation::Read, 0), 0x638A_0000);
    assert_eq!(
        management_frame(1, Register::Vendor(0x1B), MdioOperation::Write, 0x0500),
        0x50EE_0500
    );
    assert_eq!(management_data(0x638A_1560), 0x1560);
}

#[test]
fn ksz8091_oui() {
    assert_eq!(oui_from_identifier(0x0022, 0x1560).0, [0x00, 0x10, 0xA1]);
    let mut bus = SimulatedBus::with_phy_at(1, 0x0022, 0x1560);
    let phy = KSZ8091::new(1, &mut bus);
    assert_eq!(phy.address(), 1);
    assert_eq!(bus.writes, vec![(1, 0x1B, 0x0500)]);
    assert_eq!(phy.oui(&bus).0, [0x00, 0x10, 0xA1]);
}

#[test]
fn ksz8091_interrupt_status() {
    let s = decode_interrupt_status(0b1000_0101);
    assert!(s.jabber);
    assert!(s.link_down);
    assert!(s.link_up);
    assert!(!s.receive_error);
    assert!(!s.page_received);
    assert!(!s.parallel_detect_fault);
    assert!(!s.link_partner_ack);
    assert!(!s.remote_fault);
}

#[test]
fn station_address_from_oui() {
    let addr = station_address([0x00, 0x10, 0xA1]);
    assert_eq!(addr, [0x00, 0x10, 0xA1, 0x00, 0x00, 0x01]);
    assert_eq!(address_filter(addr), (0x00A1_1000, 0x0100));
}

#[test]
fn interrupt_flags_decoded() {
    let e = Mac::irq(0x0000_0402 | 0x0000_0800);
    assert!(e.rx_complete);
    assert!(e.rx_overrun);
    assert!(!e.tx_complete);
    assert!(!e.management_done);
    assert_eq!(e.acknowledge, 0x0402);
    assert_eq!(e.unhandled, 0x0800);
    let e = Mac::irq(0x0000_00D1);
    assert!(e.management_done && e.tx_underrun && e.amba_error && e.tx_complete);
    assert_eq!(e.acknowledge, 0xD1);
    assert_eq!(e.unhandled, 0);
}
