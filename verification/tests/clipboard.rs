//! What is sent to the terminal's clipboard.
use giff::ui::clipboard::{base64_encode, osc52};

#[test]
fn base64_known_vectors() {
    assert_eq!(base64_encode(b""), "");
    assert_eq!(base64_encode(b"f"), "Zg==");
    assert_eq!(base64_encode(b"fo"), "Zm8=");
    assert_eq!(base64_encode(b"foo"), "Zm9v");
    assert_eq!(base64_encode(b"foob"), "Zm9vYg==");
    assert_eq!(base64_encode(b"fooba"), "Zm9vYmE=");
    assert_eq!(base64_encode(b"foobar"), "Zm9vYmFy");
}

#[test]
fn osc52_wraps_payload() {
    // Outside of tmux, expect the bare OSC 52 form.
    assert_eq!(osc52("foobar", false), "\x1b]52;c;Zm9vYmFy\x07");
}

#[test]
fn osc52_passes_through_tmux() {
    assert_eq!(
        osc52("foobar", true),
        "\x1bPtmux;\x1b\x1b]52;c;Zm9vYmFy\x07\x1b\\"
    );
}

#[test]
fn base64_of_bytes_that_are_no_text() {
    assert_eq!(base64_encode(&[0xff, 0xfe, 0xfd, 0x00]), "//79AA==");
}
