use efm32gg_net::dma::{
    BufferDescriptor, BufferDescriptorListWrap, BufferDescriptorOwnership, RxBuffer,
    RxBufferDescriptor, RxDescriptors, RxRegion, TxBuffer, TxBufferDescriptor,
    TxChecksumGenerationError, TxDescriptors, TxRegion,
};

fn rx_ring(n: usize) -> RxBuffer {
    RxBuffer::new(RxRegion(vec![0u8; 128 * n]), 0x2000_0000, RxDescriptors::new(n), 0x2001_0000)
}

fn tx_ring(n: usize) -> TxBuffer {
    TxBuffer::new(TxRegion(vec![0u8; 128 * n]), 0x2000_4000, TxDescriptors::new(n), 0x2001_0100)
}

#[test]
fn rx_ring_wraps_only_at_last_descriptor() {
    for n in [2usize, 3, 4, 12, 17] {
        let ring = rx_ring(n);
        assert_eq!(ring.len(), n);
        let wraps: Vec<usize> = (0..n)
            .filter(|&i| ring.descriptors()[i].wrapping() == BufferDescriptorListWrap::Wrap)
            .collect();
        assert_eq!(wraps, vec![n - 1]);
        for (i, d) in ring.descriptors().iter().enumerate() {
            assert_eq!(d.address(), 0x2000_0000 + 128 * i as u32);
            assert_eq!(d.ownership(), BufferDescriptorOwnership::Hardware);
            assert!(!d.start_of_frame());
            assert!(!d.end_of_frame());
        }
        assert_eq!(ring.address(), 0x2001_0000);
        assert_eq!(ring.region().len(), 128 * n);
    }
}

#[test]
fn tx_ring_wraps_only_at_last_descriptor() {
    for n in [2usize, 5, 12] {
        let ring = tx_ring(n);
        let wraps: Vec<usize> = (0..n)
            .filter(|&i| ring.descriptors()[i].wrapping() == BufferDescriptorListWrap::Wrap)
            .collect();
        assert_eq!(wraps, vec![n - 1]);
        for (i, d) in ring.descriptors().iter().enumerate() {
            assert_eq!(d.address(), 0x2000_4000 + 128 * i as u32);
            assert_eq!(d.ownership(), BufferDescriptorOwnership::Software);
        }
        assert_eq!(ring.descriptors()[n - 1].word1, 0xC000_0000);
        assert_eq!(ring.descriptors()[0].word1, 0x8000_0000);
    }
}

#[test]
fn rx_descriptor_words() {
    let d = RxBufferDescriptor::new(0x2000_0080);
    assert_eq!(d.word0, 0x2000_0080);
    assert_eq!(d.word1, 0);
    let d = d.end_of_list();
    assert_eq!(d.word0, 0x2000_0082);
    assert_eq!(d.wrapping(), BufferDescriptorListWrap::Wrap);
    assert_eq!(d.address(), 0x2000_0080);
    assert_eq!(d.ownership(), BufferDescriptorOwnership::Hardware);
}

#[test]
fn rx_release_keeps_address_and_wrap() {
    let mut d = RxBufferDescriptor { word0: 0x2000_0103, word1: 0x0000_C080 };
    assert_eq!(d.ownership(), BufferDescriptorOwnership::Software);
    assert!(d.start_of_frame());
    assert!(d.end_of_frame());
    d.release();
    assert_eq!(d.word0, 0x2000_0102);
    assert_eq!(d.word1, 0x0000_C080);
    assert_eq!(d.ownership(), BufferDescriptorOwnership::Hardware);
    assert_eq!(d.wrapping(), BufferDescriptorListWrap::Wrap);
    assert_eq!(d.address(), 0x2000_0100);
}

#[test]
fn rx_word0_round_trip_all_combinations() {
    for address in [0u32, 4, 0x2000_0080, 0xFFFF_FFFC] {
        for wrap in [BufferDescriptorListWrap::NoWrap, BufferDescriptorListWrap::Wrap] {
            for own in [BufferDescriptorOwnership::Software, BufferDescriptorOwnership::Hardware] {
                let mut word0 = address;
                if wrap == BufferDescriptorListWrap::Wrap {
                    word0 |= 2;
                }
                if own == BufferDescriptorOwnership::Software {
                    word0 |= 1;
                }
                let d = RxBufferDescriptor { word0, word1: 0 };
                assert_eq!(d.address(), address);
                assert_eq!(d.wrapping(), wrap);
                assert_eq!(d.ownership(), own);
            }
        }
    }
}

#[test]
fn tx_descriptor_fields() {
    let mut d = TxBufferDescriptor::new(0x2000_4000);
    assert_eq!(d.word0, 0x2000_4000);
    assert_eq!(d.word1, 0x8000_0000);
    d.set_length(100);
    assert_eq!(d.length(), 100);
    d.set_length(128);
    assert_eq!(d.length(), 128);
    d.set_last_buffer(true);
    assert!(d.last_buffer());
    assert!(d.end_of_frame());
    assert_eq!(d.word1, 0x8000_8080);
    d.set_last_buffer(false);
    assert!(!d.last_buffer());
    d.release();
    assert_eq!(d.ownership(), BufferDescriptorOwnership::Hardware);
    assert_eq!(d.word1, 0x0000_0080);
    d.claim();
    assert_eq!(d.ownership(), BufferDescriptorOwnership::Software);
    assert_eq!(d.word1, 0x8000_0080);
    let d = d.end_of_list();
    assert_eq!(d.wrapping(), BufferDescriptorListWrap::Wrap);
    assert_eq!(d.word1, 0xC000_0080);
}

#[test]
fn tx_error_flags() {
    let d = TxBufferDescriptor { word0: 0, word1: 0x2000_0000 };
    assert!(d.error_retry_limit());
    assert!(!d.error_tx_underrun());
    let d = TxBufferDescriptor { word0: 0, word1: 0x1000_0000 };
    assert!(d.error_tx_underrun());
    let d = TxBufferDescriptor { word0: 0, word1: 0x0800_0000 };
    assert!(d.error_frame_corrupt());
    let d = TxBufferDescriptor { word0: 0, word1: 0x0400_0000 };
    assert!(d.error_late_collision());
    assert!(!d.error_frame_corrupt());
    assert_eq!(d.error_checksum_generation(), None);
}

#[test]
fn tx_checksum_error_codes() {
    let expected = [
        None,
        Some(TxChecksumGenerationError::VlanBadHeader),
        Some(TxChecksumGenerationError::SnapBadHeader),
        Some(TxChecksumGenerationError::IpBadPacket),
        Some(TxChecksumGenerationError::NotIdentified),
        Some(TxChecksumGenerationError::Fragmentation),
        Some(TxChecksumGenerationError::NotTcpUdp),
        Some(TxChecksumGenerationError::EndOfPacket),
    ];
    for (code, want) in expected.iter().enumerate() {
        let d = TxBufferDescriptor { word0: 0, word1: 0x8000_0040 | ((code as u32) << 20) };
        assert_eq!(d.error_checksum_generation(), *want);
        assert_eq!(d.length(), 0x40);
    }
}

#[test]
fn tx_word1_round_trip() {
    let word1 = 0x0000_05DC | 0x8000 | (3 << 20) | 0x0400_0000 | 0x1000_0000 | 0x4000_0000;
    let d = TxBufferDescriptor { word0: 0, word1 };
    assert_eq!(d.length(), 0x5DC);
    assert!(d.last_buffer());
    assert_eq!(d.error_checksum_generation(), Some(TxChecksumGenerationError::IpBadPacket));
    assert!(d.error_late_collision());
    assert!(!d.error_frame_corrupt());
    assert!(d.error_tx_underrun());
    assert!(!d.error_retry_limit());
    assert_eq!(d.wrapping(), BufferDescriptorListWrap::Wrap);
    assert_eq!(d.ownership(), BufferDescriptorOwnership::Hardware);
}

#[test]
fn checksum_error_text() {
    assert_eq!(TxChecksumGenerationError::VlanBadHeader.as_str(), "VLAN bad header");
    assert_eq!(TxChecksumGenerationError::SnapBadHeader.as_str(), "SNAP bad header");
    assert_eq!(TxChecksumGenerationError::IpBadPacket.as_str(), "IP bad packet");
    assert_eq!(TxChecksumGenerationError::NotIdentified.as_str(), "not VLAN, SNAP, or IP");
    assert_eq!(
        TxChecksumGenerationError::Fragmentation.as_str(),
        "non-supported packet fragmentation"
    );
    assert_eq!(TxChecksumGenerationError::NotTcpUdp.as_str(), "not TCP or UDP");
    assert_eq!(TxChecksumGenerationError::EndOfPacket.as_str(), "premature end of packet");
}

#[test]
fn tx_queue_index_from_register() {
    let ring = tx_ring(12);
    assert_eq!(ring.queue_index(0x2001_0100), 0);
    assert_eq!(ring.queue_index(0x2001_0100 + 8 * 5), 5);
    assert_eq!(ring.queue_index(0x2001_0100 + 8 * 11 + 3), 11);
    assert_eq!(ring.queue_index(0x2001_0100 + 8 * 12), 0);
}

#[test]
fn descriptor_lists_have_requested_length() {
    let ring = rx_ring(7);
    assert_eq!(ring.descriptors().len(), 7);
    let ring = tx_ring(3);
    assert_eq!(ring.descriptors().len(), 3);
}
