use bgp4::decision::{DecisionProcessData, RouteSource};
use bgp4::octets::IpAddress;
use std::cmp::Ordering;

fn v4(a: u8, b: u8, c: u8, d: u8) -> u32 {
    u32::from_be_bytes([a, b, c, d])
}

fn v6(segs: [u16; 8]) -> u128 {
    let mut value: u128 = 0;
    for s in segs.iter() {
        value = (value << 16) | *s as u128;
    }
    value
}

fn data(lp: Option<u32>, path_len: u8, last_as: u16, origin: u8, med: u32, rs: RouteSource, igp: u64, id: u32, addr: IpAddress) -> DecisionProcessData {
    DecisionProcessData {
        local_pref: lp,
        as_path_len: path_len,
        last_as,
        origin,
        med,
        route_source: rs,
        igp_cost: igp,
        peer_id: id,
        peer_addr: addr,
    }
}

#[test]
fn decision_data_cmp_lp() {
    let ip = v4(192, 168, 1, 1);
    let best = data(Some(1000), 0, 0, 0, 0, RouteSource::Ibgp, 0, ip, IpAddress::V4(ip));
    let candidate = data(Some(100), 0, 0, 0, 0, RouteSource::Ibgp, 0, ip, IpAddress::V4(ip));
    assert!(candidate > best);
}

#[test]
fn decision_data_cmp_as_path_len() {
    let ip = v4(192, 168, 1, 1);
    let best = data(Some(1000), 5, 0, 0, 0, RouteSource::Ibgp, 0, ip, IpAddress::V4(ip));
    let candidate = data(Some(1000), 10, 0, 0, 0, RouteSource::Ibgp, 0, ip, IpAddress::V4(ip));
    assert!(candidate > best);
}

#[test]
fn decision_data_cmp_origin() {
    let ip = v4(192, 168, 1, 1);
    let best = data(Some(1000), 0, 0, 0, 0, RouteSource::Ibgp, 900, ip, IpAddress::V4(ip));
    let candidate = data(None, 0, 0, 1, 0, RouteSource::Ibgp, 0, ip, IpAddress::V4(ip));
    assert!(candidate > best);
}

#[test]
fn decision_data_cmp_med() {
    let ip = v4(192, 168, 1, 1);
    let best = data(Some(1000), 0, 65000, 0, 0, RouteSource::Ibgp, 900, ip, IpAddress::V4(ip));
    let candidate = data(Some(1000), 0, 65000, 0, 1000, RouteSource::Ebgp, 0, ip, IpAddress::V4(ip));
    assert!(candidate > best);
}

#[test]
fn decision_data_cmp_rte_src() {
    let ip = v4(192, 168, 1, 1);
    let best = data(Some(1000), 0, 65000, 0, 0, RouteSource::Ebgp, 900, ip, IpAddress::V4(ip));
    let candidate = data(Some(1000), 0, 65000, 0, 0, RouteSource::Ibgp, 0, ip, IpAddress::V4(ip));
    assert!(candidate > best);
}

#[test]
fn decision_data_cmp_igp_cost() {
    let ip = v4(192, 168, 1, 1);
    let best = data(Some(1000), 0, 65000, 0, 0, RouteSource::Ebgp, 0, ip, IpAddress::V4(ip));
    let candidate = data(Some(1000), 0, 65000, 0, 0, RouteSource::Ebgp, 900, ip, IpAddress::V4(ip));
    assert!(candidate > best);
}

#[test]
fn decision_data_cmp_peer_id() {
    let best_ip = v4(192, 168, 1, 1);
    let cand_ip = v4(192, 168, 2, 1);
    let best = data(Some(1000), 0, 65000, 0, 0, RouteSource::Ebgp, 0, best_ip, IpAddress::V4(cand_ip));
    let candidate = data(Some(1000), 0, 65000, 0, 0, RouteSource::Ebgp, 0, cand_ip, IpAddress::V4(cand_ip));
    assert!(candidate > best);
}

#[test]
fn decision_data_cmp_peer_addr_v4() {
    let best_ip = v4(192, 168, 1, 1);
    let cand_ip = v4(192, 168, 2, 1);
    let best = data(Some(1000), 0, 65000, 0, 0, RouteSource::Ebgp, 0, cand_ip, IpAddress::V4(best_ip));
    let candidate = data(Some(1000), 0, 65000, 0, 0, RouteSource::Ebgp, 0, cand_ip, IpAddress::V4(cand_ip));
    assert!(candidate > best);
}

#[test]
fn decision_data_cmp_peer_addr_v6() {
    let best_ip = v6([0, 0, 0, 0, 0, 0xffff, 0xffff, 0xffff]);
    let cand_ip = v6([0, 0, 0, 0, 0x01, 0xffff, 0xffff, 0xffff]);
    let id = v4(192, 168, 1, 1);
    let best = data(Some(1000), 0, 65000, 0, 0, RouteSource::Ebgp, 0, id, IpAddress::V6(best_ip));
    let candidate = data(Some(1000), 0, 65000, 0, 0, RouteSource::Ebgp, 0, id, IpAddress::V6(cand_ip));
    assert!(candidate > best);
}

#[test]
fn local_pref_beats_as_path() {
    let ip = v4(10, 0, 0, 1);
    let high = data(Some(1000), 9, 65000, 2, 500, RouteSource::Ibgp, 50, ip, IpAddress::V4(ip));
    let low = data(Some(100), 1, 65000, 0, 0, RouteSource::Ibgp, 0, ip, IpAddress::V4(ip));
    assert!(high.is_better(&low));
    assert_eq!(high.compare(&low), Ordering::Less);
    assert_eq!(low.compare(&high), Ordering::Greater);
}

#[test]
fn med_gated_by_last_as() {
    let ip = v4(10, 0, 0, 1);
    let a = data(Some(100), 3, 65000, 0, 0, RouteSource::Ebgp, 10, ip, IpAddress::V4(ip));
    let b = data(Some(100), 3, 65001, 0, 0, RouteSource::Ebgp, 5, ip, IpAddress::V4(ip));
    let c = data(Some(100), 3, 65000, 0, 1000, RouteSource::Ebgp, 1, ip, IpAddress::V4(ip));
    // Same last AS: the lower MED wins although its IGP cost is higher.
    assert!(a.is_better(&c));
    // Different last AS: MED is skipped, the IGP cost decides.
    assert!(b.is_better(&a));
    assert!(c.is_better(&b));
    assert_eq!(a.stage(&b, 4), Ordering::Equal);
    assert_eq!(a.stage(&c, 4), Ordering::Less);
}

#[test]
fn equal_summaries_compare_equal() {
    let ip = v4(10, 0, 0, 1);
    let a = data(None, 3, 65000, 0, 0, RouteSource::Ebgp, 10, ip, IpAddress::V4(ip));
    assert_eq!(a.compare(&a), Ordering::Equal);
    let b = data(None, 3, 65000, 0, 0, RouteSource::Ebgp, 10, ip, IpAddress::V6(0));
    assert!(a.is_better(&b));
    let r: u8 = (&RouteSource::Ibgp).into();
    assert_eq!(r, 1);
}
