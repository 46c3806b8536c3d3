use ip_tcp::addr::VirtualIp;
use ip_tcp::protocol::rip::RipEntry;
use ip_tcp::route::{Route, RouteTable};

fn ip(d: u8) -> VirtualIp {
    VirtualIp::new(10, 0, 0, d)
}

fn entry(d: u8, cost: u32) -> RipEntry {
    RipEntry { cost, address: ip(d), mask: 0xffff_ffff }
}

fn table() -> RouteTable {
    let mut t = RouteTable::new();
    assert!(t.add_local(ip(1), 0));
    t
}

fn costs(t: &RouteTable) -> Vec<(VirtualIp, u32)> {
    t.routes.iter().map(|r| (r.dst, r.cost)).collect()
}

#[test]
fn a_local_interface_is_at_cost_zero_and_stays() {
    let mut t = table();
    assert_eq!(
        t.routes,
        vec![Route {
            dst: ip(1),
            cost: 0,
            next_hop: ip(1),
            link: None,
            last_update_time: 0,
            is_local: true
        }]
    );
    assert!(t.is_local(ip(1)));
    assert!(!t.is_local(ip(2)));
    assert_eq!(t.lookup(ip(1)), None);
    // an advertisement never replaces it, not even when the entry is old
    assert!(!t.apply_update(0, ip(2), &[entry(1, 0)], 1_000_000, 10));
    assert_eq!(costs(&t), vec![(ip(1), 0)]);
    t.expire(1_000_000, 10);
    assert_eq!(costs(&t), vec![(ip(1), 0)]);
}

#[test]
fn an_advertised_route_costs_one_more() {
    let mut t = table();
    assert!(t.apply_update(0, ip(2), &[entry(2, 0), entry(3, 1), entry(4, 14)], 100, 12000));
    assert_eq!(costs(&t), vec![(ip(1), 0), (ip(2), 1), (ip(3), 2), (ip(4), 15)]);
    assert_eq!(t.lookup(ip(3)), Some((0, ip(2))));
    assert_eq!(t.lookup(ip(9)), None);
    assert_eq!(t.routes[2].last_update_time, 100);
    assert_eq!(t.routes[2].link, Some(0));
    // unreachable destinations that are not known are not taken up
    assert!(!t.apply_update(0, ip(2), &[entry(5, 15), entry(6, 16), entry(7, 4_000_000_000)], 100, 12000));
    assert_eq!(t.routes.len(), 4);
}

#[test]
fn replacement_rule() {
    let mut t = table();
    t.apply_update(0, ip(2), &[entry(5, 4)], 100, 12000);
    assert_eq!(t.lookup(ip(5)), Some((0, ip(2))));
    // a dearer way on another link is not taken
    assert!(!t.apply_update(1, ip(3), &[entry(5, 4)], 200, 12000));
    assert!(!t.apply_update(1, ip(3), &[entry(5, 7)], 200, 12000));
    assert_eq!((t.routes[1].cost, t.routes[1].link, t.routes[1].last_update_time), (5, Some(0), 100));
    // a cheaper way is
    assert!(t.apply_update(1, ip(3), &[entry(5, 3)], 300, 12000));
    assert_eq!((t.routes[1].cost, t.routes[1].link, t.routes[1].next_hop), (4, Some(1), ip(3)));
    // the link that the route was learned on is believed, dearer or not
    assert!(t.apply_update(1, ip(3), &[entry(5, 9)], 400, 12000));
    assert_eq!(t.routes[1].cost, 10);
    // the same again refreshes and changes no cost
    assert!(!t.apply_update(1, ip(3), &[entry(5, 9)], 500, 12000));
    assert_eq!(t.routes[1].last_update_time, 500);
    // a withdrawal from that link
    assert!(t.apply_update(1, ip(3), &[entry(5, 16)], 600, 12000));
    assert_eq!(t.routes[1].cost, 16);
    assert_eq!(t.lookup(ip(5)), None);
    // a stale entry gives way to any link
    let mut t = table();
    t.apply_update(0, ip(2), &[entry(5, 1)], 0, 1000);
    assert!(!t.apply_update(1, ip(3), &[entry(5, 6)], 1000, 1000));
    assert!(t.apply_update(1, ip(3), &[entry(5, 6)], 1001, 1000));
    assert_eq!((t.routes[1].cost, t.routes[1].link), (7, Some(1)));
}

#[test]
fn no_two_entries_for_one_destination() {
    let mut t = table();
    let mut now = 0;
    for round in 0..50u32 {
        for link in 0..3usize {
            let entries: Vec<RipEntry> = (0..20u8)
                .map(|d| entry(d, (round * 7 + d as u32 * 3 + link as u32) % 18))
                .collect();
            t.apply_update(link, ip(100 + link as u8), &entries, now, 4);
            now += 1;
        }
        if round % 5 == 0 {
            t.expire(now, 4);
        }
        let mut seen: Vec<VirtualIp> = t.routes.iter().map(|r| r.dst).collect();
        let n = seen.len();
        seen.sort_by_key(|v| (v.0, v.1, v.2, v.3));
        seen.dedup();
        assert_eq!(seen.len(), n);
        assert!(t.routes.iter().all(|r| r.cost <= 16));
    }
}

#[test]
fn split_horizon_with_poison_reverse() {
    let mut t = table();
    t.apply_update(0, ip(2), &[entry(2, 0), entry(3, 1)], 0, 12000);
    t.apply_update(1, ip(4), &[entry(4, 0)], 0, 12000);
    assert_eq!(
        t.snapshot_for(0),
        vec![entry(1, 0), entry(2, 16), entry(3, 16), entry(4, 1)]
    );
    assert_eq!(
        t.snapshot_for(1),
        vec![entry(1, 0), entry(2, 1), entry(3, 2), entry(4, 16)]
    );
    assert_eq!(
        t.snapshot_for(7),
        vec![entry(1, 0), entry(2, 1), entry(3, 2), entry(4, 1)]
    );
}

#[test]
fn entries_age_and_leave() {
    let mut t = table();
    t.apply_update(0, ip(2), &[entry(2, 0)], 1000, 12000);
    t.apply_update(0, ip(2), &[entry(3, 1)], 5000, 12000);
    t.expire(13000, 12000);
    assert_eq!(costs(&t), vec![(ip(1), 0), (ip(2), 1), (ip(3), 2)]);
    t.expire(13001, 12000);
    assert_eq!(costs(&t), vec![(ip(1), 0), (ip(2), 16), (ip(3), 2)]);
    assert_eq!(t.lookup(ip(2)), None);
    t.expire(25000, 12000);
    assert_eq!(costs(&t), vec![(ip(1), 0), (ip(2), 16), (ip(3), 16)]);
    t.expire(25001, 12000);
    assert_eq!(costs(&t), vec![(ip(1), 0), (ip(3), 16)]);
    t.expire(29001, 12000);
    assert_eq!(costs(&t), vec![(ip(1), 0)]);
}

#[test]
fn a_link_that_goes_down_takes_its_routes_with_it() {
    let mut t = table();
    t.apply_update(0, ip(2), &[entry(2, 0), entry(3, 1)], 0, 12000);
    t.apply_update(1, ip(4), &[entry(4, 0)], 0, 12000);
    t.link_down(0);
    assert_eq!(costs(&t), vec![(ip(1), 0), (ip(2), 16), (ip(3), 16), (ip(4), 1)]);
    assert_eq!(t.lookup(ip(2)), None);
    assert_eq!(t.lookup(ip(4)), Some((1, ip(4))));
    // the withdrawn routes are still said, so that the neighbours hear of it
    assert_eq!(t.snapshot_for(1)[1], entry(2, 16));
}
