use ip_tcp::addr::VirtualIp;
use ip_tcp::drop_policy::{DropFactor, DropPolicy, NeverDrop};
use ip_tcp::net::ipv4::{encode_datagram, read_datagram};

#[test]
fn drop_rate() {
    // drop 20% packet, or once every 5 packets.
    let mut dropper = DropFactor::every((1.0 / 0.2f32) as usize);

    let bytes = encode_datagram(VirtualIp::new(0, 0, 0, 0), VirtualIp::new(0, 0, 0, 0), 10, 10, &[0; 10]);
    let ip_header = read_datagram(&bytes).unwrap();

    let mut dropped: usize = 0;
    let iters = 1_000_000;
    for _ in 0..iters {
        if dropper.should_drop(&ip_header) {
            dropped += 1;
        }
    }

    assert_eq!(dropped as f64, (iters as f64 * 0.2).floor());
}

#[test]
fn the_first_of_every_run_is_dropped() {
    let bytes = encode_datagram(VirtualIp::new(1, 1, 1, 1), VirtualIp::new(2, 2, 2, 2), 0, 16, &[]);
    let h = read_datagram(&bytes).unwrap();
    let mut p = DropFactor::every(3);
    let seen: Vec<bool> = (0..7).map(|_| p.should_drop(&h)).collect();
    assert_eq!(seen, vec![true, false, false, true, false, false, true]);
    let mut all = DropFactor::every(1);
    assert!((0..5).all(|_| all.should_drop(&h)));
}

#[test]
fn never_means_never() {
    let bytes = encode_datagram(VirtualIp::new(1, 1, 1, 1), VirtualIp::new(2, 2, 2, 2), 0, 16, &[]);
    let h = read_datagram(&bytes).unwrap();
    let mut p = DropFactor::never();
    assert!((0..100).all(|_| !p.should_drop(&h)));
    let mut n = NeverDrop;
    assert!((0..100).all(|_| !n.should_drop(&h)));
}
