use sysmon::network::{InterfaceTraffic, NetworkMonitor};

fn iface(received: u64, transmitted: u64, total_received: u64, total_transmitted: u64) -> InterfaceTraffic {
    InterfaceTraffic { received, transmitted, total_received, total_transmitted }
}

#[test]
fn new_monitor_starts_from_lifetime_totals() {
    let m = NetworkMonitor::new(&vec![iface(1, 2, 1000, 2000), iface(3, 4, 10, 20)]);
    assert_eq!(m.total_rx(), 1010);
    assert_eq!(m.total_tx(), 2020);
}

#[test]
fn refresh_sums_per_tick_traffic_and_accumulates() {
    let mut m = NetworkMonitor::new(&vec![]);
    assert_eq!(m.total_rx(), 0);
    let s = m.refresh(&vec![iface(100, 5, 0, 0), iface(20, 7, 0, 0)]);
    assert_eq!((s.rx_speed, s.tx_speed), (120, 12));
    let s = m.refresh(&vec![iface(1, 1, 0, 0)]);
    assert_eq!((s.rx_speed, s.tx_speed), (1, 1));
    assert_eq!(m.total_rx(), 121);
    assert_eq!(m.total_tx(), 13);
}

#[test]
fn refresh_with_no_interfaces_reports_zero() {
    let mut m = NetworkMonitor::new(&vec![iface(0, 0, 5, 6)]);
    let s = m.refresh(&vec![]);
    assert_eq!((s.rx_speed, s.tx_speed), (0, 0));
    assert_eq!((m.total_rx(), m.total_tx()), (5, 6));
}
