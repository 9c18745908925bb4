use hardware::board::{board_name_files, board_name_from, rk_model_from};
use hardware::{get_board_name, get_rk_model};

fn model(bytes: &[u8]) -> Vec<Option<Vec<u8>>> {
    vec![Some(bytes.to_vec())]
}

#[test]
fn board_name_is_without_zeros_and_space() {
    assert_eq!(get_board_name(&model(b"Orange Pi 5B\0")), "Orange Pi 5B");
    assert_eq!(get_board_name(&model(b" Orange Pi 5B \n\0\0")), "Orange Pi 5B");
    assert_eq!(get_board_name(&model(b"a\0b\0")), "a\0b");
}

#[test]
fn first_board_name_that_is_not_empty_counts() {
    let files = vec![None, Some(b"\0".to_vec()), Some(b"Rock 5\0".to_vec()), Some(b"other".to_vec())];
    assert_eq!(get_board_name(&files), "Rock 5");
    assert_eq!(get_board_name(&vec![None, Some(b" \n".to_vec())]), "Unknown Board");
    assert_eq!(get_board_name(&vec![]), "Unknown Board");
}

#[test]
fn board_name_that_is_no_utf8_is_repaired() {
    assert_eq!(get_board_name(&model(b"Pi \xff5\0")), "Pi \u{fffd}5");
    assert_eq!(get_board_name(&model("Caf\u{e9}\0".as_bytes())), "Caf\u{e9}");
}

#[test]
fn board_name_comes_from_texts_too() {
    assert_eq!(board_name_from(&vec![None, Some("X\0".to_string())]), "X");
}

#[test]
fn board_name_has_two_files() {
    assert_eq!(board_name_files(), ["/proc/device-tree/model", "/sys/firmware/devicetree/base/model"]);
}

#[test]
fn rk_model_is_a_word_of_the_board_name() {
    assert_eq!(get_rk_model(&model(b"Rockchip RK3588 EVB1 LP4 V10 Board\0")), "RK3588");
    assert_eq!(get_rk_model(&model(b"RK3399-EVB\0")), "RK3399");
    assert_eq!(get_rk_model(&model(b"XRK1 RK RK22 RK33\0")), "RK22");
}

#[test]
fn rk_model_is_unknown_otherwise() {
    assert_eq!(get_rk_model(&model(b"Orange Pi 5B\0")), "Unknown RK");
    assert_eq!(get_rk_model(&model(b"Rockchip RK3588S Board\0")), "Unknown RK");
    assert_eq!(get_rk_model(&model(b"rk3588\0")), "Unknown RK");
    assert_eq!(get_rk_model(&vec![]), "Unknown RK");
}

#[test]
fn rk_model_ends_where_a_byte_is_no_text() {
    assert_eq!(get_rk_model(&model(b"\xffRK3566\xff\0")), "RK3566");
}

#[test]
fn rk_model_is_in_capitals() {
    assert_eq!(rk_model_from(Some("rk3588s".to_string())), "RK3588S");
    assert_eq!(rk_model_from(Some("stra\u{df}e".to_string())), "STRASSE");
    assert_eq!(rk_model_from(None), "Unknown RK");
}

#[test]
fn rk_model_may_be_in_other_digits() {
    assert_eq!(get_rk_model(&model("a RK\u{0663} b".as_bytes())), "RK\u{0663}");
    assert_eq!(get_rk_model(&model("\u{e9}RK3 RK4\u{e9}".as_bytes())), "Unknown RK");
}
