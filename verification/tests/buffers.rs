use ip_tcp::protocol::tcp::buf::{RecvBuf, SendBuf, CAPACITY, SEGMENT_SIZE};
use ip_tcp::protocol::tcp::rtt::{RttEstimator, INITIAL_RTO, MAX_RTO, MIN_RTO};
use ip_tcp::protocol::tcp::rtx::{RetransmissionQueue, RtxEntry, MAX_TRANSMISSIONS};

#[test]
fn send_buffer_takes_what_it_has_room_for() {
    let mut b = SendBuf::new(1000, 65535);
    assert_eq!(b.write(&[1; 10]), 10);
    assert_eq!(b.write(&vec![2; CAPACITY]), CAPACITY - 10);
    assert_eq!(b.write(&[3; 5]), 0);
    assert_eq!(b.data.len(), CAPACITY);
    assert_eq!(&b.data[..11], &[1, 1, 1, 1, 1, 1, 1, 1, 1, 1, 2]);
}

#[test]
fn segments_respect_size_and_window() {
    let mut b = SendBuf::new(1000, 2500);
    let data: Vec<u8> = (0..5000u32).map(|i| (i % 251) as u8).collect();
    assert_eq!(b.write(&data), 5000);
    let s1 = b.next_segment().unwrap();
    assert_eq!((s1.seq, s1.payload.len()), (1000, SEGMENT_SIZE));
    assert_eq!(s1.payload, &data[..1024]);
    let s2 = b.next_segment().unwrap();
    assert_eq!((s2.seq, s2.payload.len()), (2024, 1024));
    let s3 = b.next_segment().unwrap();
    assert_eq!((s3.seq, s3.payload.len()), (3048, 2500 - 2048));
    assert_eq!(s3.payload, &data[2048..2500]);
    assert!(b.next_segment().is_none());
    assert_eq!(b.sent, 2500);
    // an acknowledgment of the first segment opens the window again
    assert_eq!(b.on_ack(2024, 2500), 1024);
    assert_eq!(b.una, 2024);
    assert_eq!(b.sent, 1476);
    let s4 = b.next_segment().unwrap();
    assert_eq!((s4.seq, s4.payload.len()), (3500, 1024));
    assert_eq!(s4.payload, &data[2500..3524]);
}

#[test]
fn acknowledgments_outside_of_what_is_in_flight_cover_nothing() {
    let mut b = SendBuf::new(10, 100);
    b.write(&[7; 50]);
    let _ = b.next_segment().unwrap();
    assert_eq!(b.on_ack(9, 100), 0);
    assert_eq!(b.on_ack(10, 100), 0);
    assert_eq!(b.on_ack(61, 100), 0);
    assert_eq!((b.una, b.sent, b.data.len()), (10, 50, 50));
    assert_eq!(b.on_ack(60, 7), 50);
    assert_eq!((b.una, b.sent, b.data.len(), b.wnd), (60, 0, 0, 7));
}

#[test]
fn sequence_numbers_wrap_around() {
    let mut b = SendBuf::new(0xffff_fff0, 65535);
    b.write(&[5; 100]);
    let s = b.next_segment().unwrap();
    assert_eq!(s.seq, 0xffff_fff0);
    assert_eq!(b.on_ack(0x10, 65535), 32);
    assert_eq!(b.una, 0x10);
    assert_eq!(b.on_ack(84, 65535), 68);
    assert_eq!(b.una, 84);

    let mut r = RecvBuf::new(0xffff_fffe);
    assert_eq!(r.on_segment(0xffff_fffe, &[1, 2, 3, 4]), 4);
    assert_eq!(r.ack(), (2, (CAPACITY - 4) as u16));
    assert_eq!(r.on_segment(2, &[5]), 1);
    assert_eq!(r.read(10), vec![1, 2, 3, 4, 5]);
}

#[test]
fn a_closed_window_is_probed_with_one_octet() {
    let mut b = SendBuf::new(500, 0);
    assert!(b.probe().is_none());
    b.write(&[9, 8, 7]);
    assert!(b.next_segment().is_none());
    let p = b.probe().unwrap();
    assert_eq!((p.seq, p.payload), (500, vec![9]));
    assert_eq!(b.sent, 1);
    let p = b.probe().unwrap();
    assert_eq!((p.seq, p.payload), (500, vec![9]));
    assert_eq!(b.sent, 1);
    // the peer took the octet and opened its window
    assert_eq!(b.on_ack(501, 10), 1);
    assert!(b.probe().is_none());
    let s = b.next_segment().unwrap();
    assert_eq!((s.seq, s.payload), (501, vec![8, 7]));
    b.rewind();
    assert_eq!(b.sent, 0);
    assert_eq!(b.segment_at(501, 1), None);
}

#[test]
fn segments_in_flight_can_be_cut_again() {
    let mut b = SendBuf::new(100, 65535);
    b.write(&[1, 2, 3, 4, 5, 6]);
    let _ = b.next_segment();
    assert_eq!(b.segment_at(100, 6), Some(vec![1, 2, 3, 4, 5, 6]));
    assert_eq!(b.segment_at(102, 3), Some(vec![3, 4, 5]));
    assert_eq!(b.segment_at(102, 5), None);
    assert_eq!(b.segment_at(99, 1), None);
}

#[test]
fn receive_buffer_puts_segments_in_order() {
    let mut r = RecvBuf::new(1);
    assert_eq!(r.ack(), (1, 65535));
    // ahead of a gap: held back
    assert_eq!(r.on_segment(4, &[4, 5, 6]), 0);
    assert_eq!(r.ack(), (1, 65535));
    assert_eq!(r.read(10), Vec::<u8>::new());
    // the gap closes
    assert_eq!(r.on_segment(1, &[1, 2, 3]), 6);
    assert_eq!(r.ack(), (7, 65529));
    assert_eq!(r.read(4), vec![1, 2, 3, 4]);
    assert_eq!(r.ack(), (7, 65533));
    assert_eq!(r.read(4), vec![5, 6]);
    assert_eq!(r.ack(), (7, 65535));
}

#[test]
fn a_duplicate_is_acknowledged_as_the_first_copy_was() {
    let mut r = RecvBuf::new(100);
    assert_eq!(r.on_segment(100, &[1, 2, 3]), 3);
    let first = r.ack();
    assert_eq!(r.on_segment(100, &[1, 2, 3]), 0);
    assert_eq!(r.ack(), first);
    // ahead of a gap too
    assert_eq!(r.on_segment(110, &[9]), 0);
    let held = r.ack();
    assert_eq!(r.on_segment(110, &[9]), 0);
    assert_eq!(r.ack(), held);
    // a segment that overlaps what has arrived brings only what is new
    assert_eq!(r.on_segment(101, &[2, 3, 4, 5]), 2);
    assert_eq!(r.ack(), (105, 65530));
    assert_eq!(r.read(100), vec![1, 2, 3, 4, 5]);
}

#[test]
fn what_does_not_fit_the_window_is_let_go() {
    let mut r = RecvBuf::new(0);
    let big = vec![1u8; CAPACITY];
    assert_eq!(r.on_segment(0, &big[..60000]), 60000);
    assert_eq!(r.ack(), (60000, 5535));
    // only 5535 octets fit
    assert_eq!(r.on_segment(60000, &vec![2u8; 6000]), 5535);
    assert_eq!(r.ack(), (65535, 0));
    assert_eq!(r.on_segment(65535, &[3]), 0);
    assert_eq!(r.read(60000).len(), 60000);
    assert_eq!(r.ack(), (65535, 60000));
    assert_eq!(r.on_segment(65535, &[3]), 1);
    let rest = r.read(CAPACITY);
    assert_eq!(rest.len(), 5536);
    assert_eq!(rest[5534], 2);
    assert_eq!(rest[5535], 3);
    // beyond the window altogether
    assert_eq!(r.on_segment(65536 + 70000, &[4]), 0);
    assert_eq!(r.ack(), (65536, 65535));
}

#[test]
fn the_ring_goes_round() {
    let mut r = RecvBuf::new(0);
    let mut seq: u32 = 0;
    let mut expected: u8 = 0;
    for round in 0..200 {
        let n = 1000 + round;
        let chunk: Vec<u8> = (0..n).map(|i| ((seq as usize + i) % 253) as u8).collect();
        assert_eq!(r.on_segment(seq, &chunk), n);
        seq = seq.wrapping_add(n as u32);
        let got = r.read(n);
        assert_eq!(got.len(), n);
        for b in got {
            assert_eq!(b, expected);
            expected = ((expected as usize + 1) % 253) as u8;
        }
    }
}

#[test]
fn fin_takes_a_sequence_number_and_no_room() {
    let mut r = RecvBuf::new(10);
    r.on_segment(10, &[1]);
    r.skip_fin();
    assert_eq!(r.ack(), (12, 65534));
}

#[test]
fn round_trip_estimate() {
    let mut e = RttEstimator::new();
    assert_eq!((e.srtt, e.rttvar, e.rto), (None, 0, INITIAL_RTO));
    assert_eq!(INITIAL_RTO, 1000);
    e.sample(100);
    // first sample: srtt = R, rttvar = R / 2, rto = max(200, 100 + 4 * 50)
    assert_eq!((e.srtt, e.rttvar, e.rto), (Some(100), 50, 300));
    e.sample(200);
    // rttvar = (3 * 50 + |100 - 200|) / 4 = 62; srtt = (7 * 100 + 200) / 8 = 112
    assert_eq!((e.srtt, e.rttvar, e.rto), (Some(112), 62, 112 + 4 * 62));
    e.sample(0);
    // rttvar = (3 * 62 + 112) / 4 = 74; srtt = 7 * 112 / 8 = 98
    assert_eq!((e.srtt, e.rttvar, e.rto), (Some(98), 74, 98 + 4 * 74));
    let mut quick = RttEstimator::new();
    quick.sample(10);
    assert_eq!(quick.rto, MIN_RTO);
    let mut slow = RttEstimator::new();
    slow.sample(50_000);
    assert_eq!(slow.rto, MAX_RTO);
    let mut huge = RttEstimator::new();
    huge.sample(u64::MAX);
    huge.sample(u64::MAX);
    assert_eq!(huge.rto, MAX_RTO);
    assert_eq!(huge.srtt, Some(u64::MAX));
}

#[test]
fn the_timeout_doubles_up_to_a_minute() {
    let mut e = RttEstimator::new();
    let mut seen = vec![];
    for _ in 0..8 {
        e.backoff();
        seen.push(e.rto);
    }
    assert_eq!(seen, vec![2000, 4000, 8000, 16000, 32000, 60000, 60000, 60000]);
}

#[test]
fn retransmission_queue() {
    let mut q = RetransmissionQueue::new();
    assert!(!q.due(1_000_000, 0));
    assert_eq!(q.retransmit(5), None);
    q.push(100, 10, 1000);
    q.push(110, 20, 1005);
    q.push(130, 1, 1010);
    assert!(!q.due(1999, 1000));
    assert!(q.due(2000, 1000));
    // nothing is covered
    assert_eq!(q.on_ack(105, 1100), None);
    assert_eq!(q.entries.len(), 3);
    // the first segment is covered, and was sent once: it measures
    assert_eq!(q.on_ack(110, 1100), Some(100));
    assert_eq!(q.entries.len(), 2);
    let again = q.retransmit(3000).unwrap();
    assert_eq!(
        again,
        RtxEntry { seq: 110, len: 20, first_tx_time: 1005, last_tx_time: 1005, tx_count: 1 }
    );
    assert_eq!(q.entries[0].tx_count, 2);
    assert_eq!(q.entries[0].last_tx_time, 3000);
    assert!(!q.due(3999, 1000));
    assert!(q.due(4000, 1000));
    // covered, but sent twice: it measures nothing
    assert_eq!(q.on_ack(131, 3100), None);
    assert!(q.entries.is_empty());
    assert_eq!(MAX_TRANSMISSIONS, 5);
}
