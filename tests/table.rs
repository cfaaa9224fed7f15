use bgp4::comms::MockReceivedRoutesBuilder;
use bgp4::decision::{DecisionProcessData, RouteSource};
use bgp4::message_types::Route;
use bgp4::octets::IpAddress;
use bgp4::path_attrs::{Med, Origin, OriginValue, PaBuilder, PathAttr, PathAttrBuilder};
use bgp4::table::{BgpTable, BgpTableEntry, Ipv4, PathAttributeTable, PathAttributeTableEntry};

fn build_pa_entry(med_val: u32, origin: OriginValue) -> PathAttributeTableEntry {
    let pa = PathAttrBuilder::<Med>::new().metric(med_val).build();
    let pa2 = PathAttrBuilder::<Origin>::new().origin(origin).build();
    // Out of type-code order: the entry sorts its attributes itself.
    let raw_pas = vec![pa, pa2];
    let ip = u32::from_be_bytes([192, 168, 1, 1]);
    let ddata = DecisionProcessData {
        local_pref: Some(100),
        as_path_len: 1,
        last_as: 65000,
        origin: origin.into(),
        med: med_val,
        route_source: RouteSource::Ebgp,
        igp_cost: 0,
        peer_addr: IpAddress::V4(ip),
        peer_id: ip,
    };
    PathAttributeTableEntry::new(ddata, raw_pas)
}

/// Pseudo-random IPv4 routes (a fixed linear congruential sequence).
fn generate_routes_v4(num_routes: usize) -> Vec<Route> {
    let mut state: u64 = 0x2545_F491_4F6C_DD1D;
    let mut next = move |range: u64| {
        state = state.wrapping_mul(6364136223846793005).wrapping_add(1442695040888963407);
        (state >> 33) % range
    };
    (1..=num_routes)
        .map(|_| {
            let a = 1 + next(223) as u8;
            let b = next(256) as u8;
            let c = next(256) as u8;
            let d = next(255) as u8;
            let len = 1 + next(32) as u8;
            Route::new(len, IpAddress::v4(a, b, c, d))
        })
        .collect()
}

fn pas_med_origin() -> Vec<PathAttr> {
    let pa = PathAttrBuilder::<Med>::new().metric(1000u32).build();
    let pa2 = PathAttrBuilder::<Origin>::new().origin(OriginValue::Incomplete).build();
    vec![pa, pa2]
}

fn sorted_routes(n: usize) -> Vec<Route> {
    let mut routes = generate_routes_v4(n);
    routes.sort();
    routes.dedup();
    routes
}

#[test]
fn test_pat_entry_eq() {
    let pate_1 = build_pa_entry(100, OriginValue::Igp);
    let pate_2 = build_pa_entry(100, OriginValue::Igp);
    let pate_3 = build_pa_entry(300, OriginValue::Egp);
    assert_eq!(pate_1, pate_2);
    assert_ne!(pate_1, pate_3);
    assert_eq!(pate_1.get_pas()[0].attr_type_code(), 1);
    assert_eq!(pate_1.get_pas()[1].attr_type_code(), 4);
}

#[test]
fn test_pat_remove_stale() {
    let mut pa_table = PathAttributeTable::new();
    let pa_entry = build_pa_entry(1000, OriginValue::Igp);
    let handle = pa_table.insert(pa_entry);
    // The entry is still in use, so nothing is dropped.
    pa_table.remove_stale(&vec![handle.clone_entry()]);
    assert_eq!(pa_table.len(), 1);
    pa_table.remove_stale(&Vec::new());
    assert_eq!(pa_table.len(), 0);
}

#[test]
fn interning_keeps_one_copy() {
    let mut pa_table = PathAttributeTable::new();
    let a = pa_table.insert(build_pa_entry(1000, OriginValue::Igp));
    let b = pa_table.insert(build_pa_entry(1000, OriginValue::Igp));
    assert_eq!(a, b);
    assert_eq!(pa_table.len(), 1);
    pa_table.insert(build_pa_entry(10, OriginValue::Igp));
    assert_eq!(pa_table.len(), 2);
}

#[test]
fn bgp_entry_insert() {
    let mut pa_table = PathAttributeTable::new();
    let pa_entry = build_pa_entry(1000, OriginValue::Egp);
    let pa_entry_c = pa_entry.clone_entry();
    let bgp_entry = BgpTableEntry::new(&pa_table.insert(pa_entry));
    assert_eq!(bgp_entry.len(), 1);
    assert_eq!(bgp_entry.is_in(&pa_entry_c), true);
}

#[test]
fn bgp_entry_is_in() {
    let mut pa_table = PathAttributeTable::new();
    let pa_entry = build_pa_entry(1000, OriginValue::Igp);
    let pa_entry_c = pa_entry.clone_entry();
    let wrong_pa_entry = build_pa_entry(900, OriginValue::Incomplete);
    let bgp_entry = BgpTableEntry::new(&pa_table.insert(pa_entry));
    assert_eq!(bgp_entry.is_in(&pa_entry_c), true);
    assert_eq!(bgp_entry.is_in(&wrong_pa_entry), false);
}

#[test]
fn test_bestpath() {
    let mut pa_table = PathAttributeTable::new();
    let pa_entry = build_pa_entry(1000, OriginValue::Incomplete);
    let best_pa_entry = build_pa_entry(10, OriginValue::Igp);
    let best_pa_entry_c = best_pa_entry.clone_entry();
    let mut bgp_entry = BgpTableEntry::new(&pa_table.insert(pa_entry));
    bgp_entry.insert(&pa_table.insert(best_pa_entry));
    assert_eq!(bgp_entry.len(), 2);
    assert_eq!(bgp_entry.bestpath(), &best_pa_entry_c);
}

#[test]
fn entry_insert_suppresses_duplicates_and_remove_by_peer() {
    let e = build_pa_entry(10, OriginValue::Igp);
    let mut bgp_entry = BgpTableEntry::new(&e);
    assert!(!bgp_entry.insert(&e));
    assert_eq!(bgp_entry.len(), 1);
    let other = build_pa_entry(20, OriginValue::Egp);
    assert!(bgp_entry.insert(&other));
    // Both paths come from the same peer: both leave.
    bgp_entry.remove(&e);
    assert!(bgp_entry.is_empty());
}

#[test]
fn bgp_table_single_walk_add_only() {
    let routes = sorted_routes(100000);
    let pas = pas_med_origin();
    let rxr = MockReceivedRoutesBuilder::new(Some(routes.clone()), None, pas.clone()).build().unwrap();
    let mut table = BgpTable::<Ipv4>::new();
    let _ = table.walk(rxr);
    assert_eq!(table.num_destinations(), routes.len());
    assert_eq!(table.num_pa_entries(), 1);
    assert_eq!(table.num_paths(), routes.len());
}

#[test]
fn bgp_table_walk_multi_add_only() {
    let routes = sorted_routes(100000);
    let pas = pas_med_origin();
    let peer1_id = u32::from_be_bytes([10, 2, 2, 1]);
    let rxr1 = MockReceivedRoutesBuilder::new(Some(routes.clone()), None, pas.clone()).peer_id(peer1_id).build().unwrap();
    let rxr2 = MockReceivedRoutesBuilder::new(Some(routes.clone()), None, pas.clone()).build().unwrap();
    let mut table = BgpTable::<Ipv4>::new();
    let _ = table.walk(rxr1);
    let _ = table.walk(rxr2);
    assert_eq!(table.num_destinations(), routes.len());
    assert_eq!(table.num_pa_entries(), 2);
    assert_eq!(table.num_paths(), 2 * routes.len());
}

#[test]
fn bgp_table_single_walk_add_remove() {
    let routes = sorted_routes(100000);
    let pas = pas_med_origin();
    let rxr_adv = MockReceivedRoutesBuilder::new(Some(routes.clone()), None, pas.clone()).build().unwrap();
    let rxr_withdrawn = MockReceivedRoutesBuilder::new(None, Some(routes.clone()), pas.clone()).build().unwrap();
    let mut table = BgpTable::<Ipv4>::new();
    let _ = table.walk(rxr_adv);
    assert_eq!(table.num_destinations(), routes.len());
    assert_eq!(table.num_pa_entries(), 1);
    assert_eq!(table.num_paths(), routes.len());
    let _ = table.walk(rxr_withdrawn);
    assert_eq!(table.num_destinations(), 0);
    assert_eq!(table.num_pa_entries(), 0);
    assert_eq!(table.num_paths(), 0);
}

#[test]
fn bgp_table_multi_walk_add_remove() {
    let routes = sorted_routes(100000);
    let pas = pas_med_origin();
    let peer1_id = u32::from_be_bytes([10, 2, 2, 1]);
    let rxr1_adv = MockReceivedRoutesBuilder::new(Some(routes.clone()), None, pas.clone()).build().unwrap();
    let rxr1_withdrawn = MockReceivedRoutesBuilder::new(None, Some(routes.clone()), pas.clone()).build().unwrap();
    let rxr2_adv = MockReceivedRoutesBuilder::new(Some(routes.clone()), None, pas.clone()).peer_id(peer1_id).build().unwrap();
    let mut table = BgpTable::<Ipv4>::new();
    let _ = table.walk(rxr1_adv);
    let _ = table.walk(rxr2_adv);
    assert_eq!(table.num_destinations(), routes.len());
    assert_eq!(table.num_pa_entries(), 2);
    assert_eq!(table.num_paths(), 2 * routes.len());
    let _ = table.walk(rxr1_withdrawn);
    assert_eq!(table.num_destinations(), routes.len());
    assert_eq!(table.num_pa_entries(), 1);
    assert_eq!(table.num_paths(), routes.len());
}

#[test]
fn bgp_table_adv_routes_single_pa() {
    let routes = sorted_routes(100);
    let pas = pas_med_origin();
    let rxr = MockReceivedRoutesBuilder::new(Some(routes.clone()), None, pas.clone()).build().unwrap();
    let mut table = BgpTable::<Ipv4>::new();
    let (_, adv_routes) = table.walk(rxr);
    assert_eq!(adv_routes.len(), 1);
    for i in 0..adv_routes.len() {
        let k = adv_routes.key(i);
        let v = adv_routes.group(i);
        assert_eq!(k[0].attr_type_code(), 1);
        assert_eq!(k[1].attr_type_code(), 4);
        assert_eq!(v.len(), routes.len());
    }
}

#[test]
fn walk_round_trip_hundred_thousand() {
    let mut routes: Vec<Route> = (0..100000u32)
        .map(|i| Route::new(32, IpAddress::V4(0x0A00_0000 + i)))
        .collect();
    routes.sort();
    let pas = pas_med_origin();
    let mut table = BgpTable::<Ipv4>::new();
    let (w1, a1) = table.walk(MockReceivedRoutesBuilder::new(Some(routes.clone()), None, pas.clone()).build().unwrap());
    assert!(w1.is_empty());
    assert_eq!(a1.len(), 1);
    assert_eq!(a1.group(0), routes.as_slice());
    assert_eq!(table.num_destinations(), 100000);
    assert_eq!(table.num_pa_entries(), 1);
    assert_eq!(table.num_paths(), 100000);
    assert_eq!(table.table_version(), 1);
    let (w2, a2) = table.walk(MockReceivedRoutesBuilder::new(None, Some(routes.clone()), pas.clone()).build().unwrap());
    assert_eq!(w2, routes);
    assert!(a2.is_empty());
    assert_eq!(table.num_destinations(), 0);
    assert_eq!(table.num_pa_entries(), 0);
    assert_eq!(table.num_paths(), 0);
    assert_eq!(table.table_version(), 2);
}

#[test]
fn readvertising_same_bundle_is_no_op() {
    let routes = sorted_routes(50);
    let pas = pas_med_origin();
    let mut table = BgpTable::<Ipv4>::new();
    let _ = table.walk(MockReceivedRoutesBuilder::new(Some(routes.clone()), None, pas.clone()).build().unwrap());
    let version = table.table_version();
    let (w, a) = table.walk(MockReceivedRoutesBuilder::new(Some(routes.clone()), None, pas.clone()).build().unwrap());
    assert!(w.is_empty());
    assert!(a.is_empty());
    assert_eq!(table.table_version(), version);
    assert_eq!(table.num_paths(), routes.len());
}

#[test]
fn better_path_is_advertised_and_withdrawal_restores_old_best() {
    let r = vec![Route::new(24, IpAddress::v4(192, 0, 2, 0))];
    let pas = pas_med_origin();
    let other = u32::from_be_bytes([10, 9, 9, 9]);
    let mut table = BgpTable::<Ipv4>::new();
    let _ = table.walk(MockReceivedRoutesBuilder::new(Some(r.clone()), None, pas.clone()).build().unwrap());
    // Higher LOCAL_PREF from another peer becomes the best path.
    let (w, a) = table.walk(MockReceivedRoutesBuilder::new(Some(r.clone()), None, pas.clone()).peer_id(other).local_pref(500).build().unwrap());
    assert!(w.is_empty());
    assert_eq!(a.len(), 1);
    // A worse path is stored but not advertised.
    let (_, a) = table.walk(MockReceivedRoutesBuilder::new(Some(r.clone()), None, pas.clone()).peer_id(7).local_pref(50).build().unwrap());
    assert!(a.is_empty());
    assert_eq!(table.num_paths(), 3);
    // Withdrawing the best peer advertises the next best; nothing is withdrawn.
    let (w, a) = table.walk(MockReceivedRoutesBuilder::new(None, Some(r.clone()), pas.clone()).peer_id(other).build().unwrap());
    assert!(w.is_empty());
    assert_eq!(a.len(), 1);
    assert_eq!(a.group(0), r.as_slice());
    assert_eq!(table.num_paths(), 2);
    assert_eq!(table.num_pa_entries(), 2);
    // Unknown destinations and IPv6 routes are skipped.
    let v6 = vec![Route::new(64, IpAddress::V6(1 << 100))];
    let (w, a) = table.walk(MockReceivedRoutesBuilder::new(Some(v6.clone()), Some(vec![Route::new(8, IpAddress::v4(1, 0, 0, 0))]), pas.clone()).build().unwrap());
    assert!(w.is_empty() && a.is_empty());
    assert_eq!(table.num_destinations(), 1);
    assert_eq!(table.skipped_routes(), 1);
}

#[test]
fn received_routes_refuse_announce_and_withdraw_of_one_route() {
    let r = vec![Route::new(24, IpAddress::v4(192, 0, 2, 0))];
    let other = vec![Route::new(24, IpAddress::v4(198, 51, 100, 0))];
    let pas = pas_med_origin();
    assert!(MockReceivedRoutesBuilder::new(Some(r.clone()), Some(r.clone()), pas.clone()).build().is_none());
    let ok = MockReceivedRoutesBuilder::new(Some(r.clone()), Some(other.clone()), pas.clone()).build().unwrap();
    assert_eq!(ok.withdrawn_routes(), other);
    assert_eq!(ok.routes(), r);
}
