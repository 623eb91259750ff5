use efm32gg_net::dma::{
    BufferDescriptor, BufferDescriptorOwnership, RxBuffer, RxDescriptors, RxRegion, TxBuffer,
    TxDescriptors, TxRegion,
};
use efm32gg_net::mac::{Mac, TokenError, TxReclaimNote};

fn mac(rx: usize, tx: usize) -> Mac {
    let rx_buffer =
        RxBuffer::new(RxRegion(vec![0u8; 128 * rx]), 0x2000_0000, RxDescriptors::new(rx), 0x2001_0000);
    let tx_buffer =
        TxBuffer::new(TxRegion(vec![0u8; 128 * tx]), 0x2000_8000, TxDescriptors::new(tx), 0x2001_0100);
    Mac::new(rx_buffer, tx_buffer)
}

/// Marks receive descriptor `i` as the DMA engine leaves it after a reception.
fn received(mac: &mut Mac, i: usize, start_of_frame: bool, end_of_frame: bool) {
    let d = &mut mac.rx_buffer.descriptors_mut()[i];
    d.word0 |= 1;
    d.word1 = (if start_of_frame { 1 << 14 } else { 0 }) | (if end_of_frame { 1 << 15 } else { 0 });
}

/// Marks transmit descriptor `i` as queued for the DMA engine.
fn queued(mac: &mut Mac, i: usize, last_buffer: bool) {
    let d = &mut mac.tx_buffer.descriptors_mut()[i];
    d.word1 &= !0x8000_0000;
    if last_buffer {
        d.word1 |= 0x8000;
    }
}

#[test]
fn rx_window_of_one_frame_in_the_middle() {
    let mut mac = mac(8, 4);
    received(&mut mac, 2, true, false);
    received(&mut mac, 3, false, false);
    received(&mut mac, 4, false, false);
    received(&mut mac, 5, false, true);
    assert_eq!(mac.find_rx_window(), Some((2, 5)));
}

#[test]
fn rx_window_not_across_hardware_descriptor() {
    let mut mac = mac(8, 4);
    received(&mut mac, 2, true, false);
    received(&mut mac, 4, false, false);
    received(&mut mac, 5, false, true);
    assert_eq!(mac.find_rx_window(), None);
}

#[test]
fn rx_window_none_on_idle_ring() {
    let mac = mac(12, 12);
    assert_eq!(mac.find_rx_window(), None);
}

#[test]
fn rx_window_wrapping_past_ring_end() {
    let mut mac = mac(8, 4);
    received(&mut mac, 6, true, false);
    received(&mut mac, 7, false, false);
    received(&mut mac, 0, false, false);
    received(&mut mac, 1, false, true);
    assert_eq!(mac.find_rx_window(), Some((6, 1)));
}

#[test]
fn rx_window_single_buffer_frame() {
    let mut mac = mac(4, 4);
    received(&mut mac, 3, true, true);
    assert_eq!(mac.find_rx_window(), Some((3, 3)));
}

#[test]
fn rx_window_latest_start_wins() {
    let mut mac = mac(8, 4);
    received(&mut mac, 1, true, false);
    received(&mut mac, 2, true, false);
    received(&mut mac, 3, false, true);
    assert_eq!(mac.find_rx_window(), Some((2, 3)));
}

#[test]
fn tx_window_on_fresh_ring() {
    let mut mac = mac(4, 12);
    let (window, notes) = mac.find_tx_window(0);
    assert_eq!(window, Some((0, 12)));
    assert_eq!(notes, vec![TxReclaimNote::Duplicate(11)]);
}

#[test]
fn tx_window_at_queue_pointer_counts_free_run() {
    let mut mac = mac(4, 8);
    queued(&mut mac, 6, true);
    let (window, _) = mac.find_tx_window(2);
    assert_eq!(window, Some((2, 4)));
}

#[test]
fn tx_window_skips_queued_descriptors() {
    let mut mac = mac(4, 8);
    queued(&mut mac, 2, false);
    queued(&mut mac, 3, true);
    let (window, notes) = mac.find_tx_window(2);
    assert_eq!(window, Some((4, 6)));
    assert_eq!(notes, vec![TxReclaimNote::Duplicate(1)]);
    assert_eq!(mac.tx_buffer.descriptors()[2].ownership(), BufferDescriptorOwnership::Hardware);
}

#[test]
fn tx_window_none_when_all_queued() {
    let mut mac = mac(4, 4);
    for i in 0..4 {
        queued(&mut mac, i, i == 3);
    }
    let before: Vec<u32> = mac.tx_buffer.descriptors().iter().map(|d| d.word1).collect();
    let (window, notes) = mac.find_tx_window(1);
    assert_eq!(window, None);
    assert!(notes.is_empty());
    let after: Vec<u32> = mac.tx_buffer.descriptors().iter().map(|d| d.word1).collect();
    assert_eq!(before, after);
}

#[test]
fn tx_reclaims_sent_frame() {
    let mut mac = mac(4, 12);
    // A frame of three buffers was sent; the DMA engine marked only its
    // first buffer as done.
    queued(&mut mac, 1, false);
    queued(&mut mac, 2, true);
    let (window, notes) = mac.find_tx_window(3);
    assert_eq!(notes, vec![TxReclaimNote::Completed(0), TxReclaimNote::Duplicate(11)]);
    assert_eq!(window, Some((3, 12)));
    for d in mac.tx_buffer.descriptors() {
        assert_eq!(d.ownership(), BufferDescriptorOwnership::Software);
    }
}

#[test]
fn tx_reclaim_reports_dangling_and_unsent() {
    let mut mac = mac(4, 8);
    queued(&mut mac, 4, false);
    queued(&mut mac, 3, true);
    let (window, notes) = mac.find_tx_window(5);
    assert_eq!(
        notes,
        vec![TxReclaimNote::Dangling(4), TxReclaimNote::Unsent(3), TxReclaimNote::Completed(2), TxReclaimNote::Duplicate(1)]
    );
    assert_eq!(window, Some((5, 8)));
}

#[test]
fn tx_consume_too_long_is_exhausted() {
    let mut mac = mac(4, 4);
    queued(&mut mac, 2, true);
    let (token, _) = mac.transmit(0);
    let token = token.unwrap();
    assert_eq!(token.start(), 0);
    assert_eq!(token.length(), 2);
    let before: Vec<(u32, u32)> = mac.tx_buffer.descriptors().iter().map(|d| (d.word0, d.word1)).collect();
    let region_before = mac.tx_buffer.region().to_vec();
    let data = vec![0xAAu8; 257];
    assert_eq!(token.consume(&mut mac.tx_buffer, &data), Err(TokenError::Exhausted));
    let after: Vec<(u32, u32)> = mac.tx_buffer.descriptors().iter().map(|d| (d.word0, d.word1)).collect();
    assert_eq!(before, after);
    assert_eq!(region_before, mac.tx_buffer.region().to_vec());
}

#[test]
fn tx_consume_marks_touched_descriptors() {
    let mut mac = mac(4, 6);
    let (token, _) = mac.transmit(0);
    let token = token.unwrap();
    let data: Vec<u8> = (0..300u32).map(|i| (i % 251) as u8 + 1).collect();
    assert_eq!(token.consume(&mut mac.tx_buffer, &data), Ok(()));
    let d = mac.tx_buffer.descriptors();
    for i in 0..3 {
        assert_eq!(d[i].ownership(), BufferDescriptorOwnership::Hardware);
    }
    for i in 3..6 {
        assert_eq!(d[i].ownership(), BufferDescriptorOwnership::Software);
        assert!(!d[i].last_buffer());
    }
    assert!(!d[0].last_buffer());
    assert!(!d[1].last_buffer());
    assert!(d[2].last_buffer());
    assert_eq!(d[0].length(), 128);
    assert_eq!(d[1].length(), 0);
    assert_eq!(d[2].length(), 0);
    let region = mac.tx_buffer.region();
    assert_eq!(&region[..300], &data[..]);
    assert!(region[300..384].iter().all(|&b| b == 0));
}

#[test]
fn tx_consume_short_frame_length() {
    let mut mac = mac(4, 4);
    let (token, _) = mac.transmit(2);
    let token = token.unwrap();
    assert_eq!(token.start(), 2);
    let data = vec![7u8; 60];
    assert_eq!(token.consume(&mut mac.tx_buffer, &data), Ok(()));
    let d = mac.tx_buffer.descriptors();
    assert_eq!(d[2].length(), 60);
    assert!(d[2].last_buffer());
    assert_eq!(d[2].ownership(), BufferDescriptorOwnership::Hardware);
    assert_eq!(d[3].ownership(), BufferDescriptorOwnership::Software);
    assert_eq!(&mac.tx_buffer.region()[256..316], &data[..]);
}

#[test]
fn rx_end_to_end_four_descriptor_ring() {
    let mut mac = mac(4, 4);
    assert_eq!(mac.rx_buffer.region().len(), 512);
    for (i, b) in mac.rx_buffer.region_mut().iter_mut().enumerate() {
        *b = (i / 128) as u8 + 0x10;
    }
    received(&mut mac, 1, true, false);
    received(&mut mac, 2, false, false);
    received(&mut mac, 3, false, true);
    assert_eq!(mac.find_rx_window(), Some((1, 3)));
    let (tokens, _) = mac.receive(0);
    let (rx, _tx) = tokens.unwrap();
    assert_eq!((rx.start(), rx.end()), (1, 3));
    let frame = rx.consume(&mut mac.rx_buffer);
    assert_eq!(frame.len(), 384);
    assert!(frame[..128].iter().all(|&b| b == 0x11));
    assert!(frame[128..256].iter().all(|&b| b == 0x12));
    assert!(frame[256..].iter().all(|&b| b == 0x13));
    for i in 1..4 {
        assert_eq!(mac.rx_buffer.descriptors()[i].ownership(), BufferDescriptorOwnership::Hardware);
    }
    assert_eq!(mac.find_rx_window(), None);
}

#[test]
fn rx_consume_wrapping_window_in_ring_order() {
    let mut mac = mac(4, 4);
    for (i, b) in mac.rx_buffer.region_mut().iter_mut().enumerate() {
        *b = (i / 128) as u8;
    }
    received(&mut mac, 3, true, false);
    received(&mut mac, 0, false, true);
    let (tokens, _) = mac.receive(0);
    let (rx, _) = tokens.unwrap();
    let frame = rx.consume(&mut mac.rx_buffer);
    assert_eq!(frame.len(), 256);
    assert!(frame[..128].iter().all(|&b| b == 3));
    assert!(frame[128..].iter().all(|&b| b == 0));
}

#[test]
fn receive_needs_a_frame() {
    let mut mac = mac(4, 4);
    let (tokens, notes) = mac.receive(0);
    assert!(tokens.is_none());
    assert!(notes.is_empty());
}

#[test]
fn ring_operations_keep_wrap_layout() {
    let mut mac = mac(4, 4);
    received(&mut mac, 3, true, false);
    received(&mut mac, 0, false, true);
    let (tokens, _) = mac.receive(3);
    let (rx, tx) = tokens.unwrap();
    rx.consume(&mut mac.rx_buffer);
    assert_eq!(tx.start(), 3);
    assert_eq!(tx.consume(&mut mac.tx_buffer, &vec![1u8; 200]), Ok(()));
    let rx_wraps: Vec<bool> = mac
        .rx_buffer
        .descriptors()
        .iter()
        .map(|d| d.wrapping() == efm32gg_net::dma::BufferDescriptorListWrap::Wrap)
        .collect();
    assert_eq!(rx_wraps, vec![false, false, false, true]);
    let tx_wraps: Vec<bool> = mac
        .tx_buffer
        .descriptors()
        .iter()
        .map(|d| d.wrapping() == efm32gg_net::dma::BufferDescriptorListWrap::Wrap)
        .collect();
    assert_eq!(tx_wraps, vec![false, false, false, true]);
    // The frame wrapped from the last descriptor to the first.
    assert!(mac.tx_buffer.descriptors()[0].last_buffer());
    assert_eq!(mac.tx_buffer.descriptors()[3].length(), 128);
    assert_eq!(&mac.tx_buffer.region()[384..512], &[1u8; 128][..]);
    assert_eq!(&mac.tx_buffer.region()[0..72], &[1u8; 72][..]);
}

#[test]
fn descriptor_lists_start_zeroed() {
    let list = RxDescriptors::new(3);
    assert!(list.as_slice().iter().all(|d| d.word0 == 0 && d.word1 == 0));
    let list = TxDescriptors::new(2);
    assert_eq!(list.as_slice().len(), 2);
    assert!(list.as_slice().iter().all(|d| d.word0 == 0 && d.word1 == 0));
}
