use hako::paths::{container_dir, exec_sock_path, id_prefix};
use hako::pidfile::{parse_dec, pid_file_content, render_dec};

#[test]
fn render_zero() {
    assert_eq!(render_dec(0), b"0".to_vec());
}

#[test]
fn render_single_digit() {
    assert_eq!(render_dec(7), b"7".to_vec());
}

#[test]
fn render_multi_digit() {
    assert_eq!(render_dec(1048576), b"1048576".to_vec());
}

#[test]
fn render_max() {
    assert_eq!(render_dec(u64::MAX), b"18446744073709551615".to_vec());
}

#[test]
fn parse_round_trip() {
    for n in [0u64, 1, 9, 10, 4242, 65535, 1 << 40, u64::MAX] {
        assert_eq!(parse_dec(&render_dec(n)), Some(n));
    }
}

#[test]
fn parse_rejects_empty() {
    assert_eq!(parse_dec(b""), None);
}

#[test]
fn parse_rejects_leading_zero() {
    assert_eq!(parse_dec(b"0123"), None);
    assert_eq!(parse_dec(b"00"), None);
}

#[test]
fn parse_accepts_plain_zero() {
    assert_eq!(parse_dec(b"0"), Some(0));
}

#[test]
fn parse_rejects_non_digits() {
    assert_eq!(parse_dec(b"12a"), None);
    assert_eq!(parse_dec(b" 12"), None);
    assert_eq!(parse_dec(b"-5"), None);
}

#[test]
fn parse_rejects_overflow() {
    assert_eq!(parse_dec(b"18446744073709551616"), None);
    assert_eq!(parse_dec(b"99999999999999999999"), None);
}

#[test]
fn pid_file_exact_decimal() {
    let msg = render_dec(31337);
    let content = pid_file_content(&msg).expect("canonical pid accepted");
    assert_eq!(content, b"31337".to_vec());
}

#[test]
fn pid_file_rejects_junk() {
    assert_eq!(pid_file_content(&b"ready".to_vec()), None);
    assert_eq!(pid_file_content(&b"".to_vec()), None);
    assert_eq!(pid_file_content(&b"007".to_vec()), None);
}

#[test]
fn prefix_of_short_id() {
    assert_eq!(id_prefix("c1"), "c1".to_string());
}

#[test]
fn prefix_of_ten_char_id() {
    assert_eq!(id_prefix("abcdefghij"), "abcdefghij".to_string());
}

#[test]
fn prefix_truncates_to_ten() {
    assert_eq!(id_prefix("abcdefghijkl"), "abcdefghij".to_string());
}

#[test]
fn prefix_counts_unicode_scalars() {
    let id = "ééééééééééé";
    assert_eq!(id.chars().count(), 11);
    let p = id_prefix(id);
    assert_eq!(p.chars().count(), 10);
    assert!(p.chars().all(|c| c == 'é'));
}

#[test]
fn container_dir_uses_prefix() {
    assert_eq!(
        container_dir("/run/hako", "container-xyz-123"),
        "/run/hako/container-".to_string()
    );
    assert_eq!(container_dir("/run/hako", "c1"), "/run/hako/c1".to_string());
}

#[test]
fn exec_sock_path_shape() {
    assert_eq!(
        exec_sock_path("/run/hako", "c1"),
        "/run/hako/c1/exec.sock".to_string()
    );
}
