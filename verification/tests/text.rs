use donglora_mux::clock::timestamp_us;
use donglora_mux::{now_us, serial_lock_path, socket_lock_path, tcp_bind_addr};

#[test]
fn serial_lock_is_named_after_the_port() {
    assert_eq!(serial_lock_path("/dev/ttyACM0"), "/tmp/donglora-serial-_dev_ttyACM0.lock");
    assert_eq!(serial_lock_path("COM3"), "/tmp/donglora-serial-COM3.lock");
    assert_eq!(serial_lock_path(""), "/tmp/donglora-serial-.lock");
    assert_eq!(serial_lock_path("//é/"), "/tmp/donglora-serial-__é_.lock");
}

#[test]
fn socket_lock_stands_beside_the_socket() {
    assert_eq!(socket_lock_path("/run/donglora/mux.sock"), "/run/donglora/mux.sock.lock");
}

#[test]
fn tcp_address_is_host_and_port() {
    assert_eq!(tcp_bind_addr("0.0.0.0", 5741), "0.0.0.0:5741");
    assert_eq!(tcp_bind_addr("::1", 0), "::1:0");
    assert_eq!(tcp_bind_addr("localhost", 65535), "localhost:65535");
}

#[test]
fn timestamps_saturate() {
    assert_eq!(timestamp_us(None), 0);
    assert_eq!(timestamp_us(Some(0)), 0);
    assert_eq!(timestamp_us(Some(1_700_000_000_000_001)), 1_700_000_000_000_001);
    assert_eq!(timestamp_us(Some(u64::MAX as u128)), u64::MAX);
    assert_eq!(timestamp_us(Some(u64::MAX as u128 + 1)), u64::MAX);
}

#[test]
fn the_clock_is_read_in_microseconds() {
    let before = std::time::SystemTime::now()
        .duration_since(std::time::UNIX_EPOCH)
        .unwrap()
        .as_micros() as u64;
    let now = now_us();
    let after = std::time::SystemTime::now()
        .duration_since(std::time::UNIX_EPOCH)
        .unwrap()
        .as_micros() as u64;
    assert!(before <= now && now <= after);
}
