use embedded_video::kitty::{clear_graphics, rewrite_kitty_z, KittyProxy};

#[test]
fn injects_z_into_placement() {
    let mut input = Vec::new();
    input.extend_from_slice(b"\x1b_Ga=T,f=32,s=8,v=8,i=1;AAAA\x1b\\");
    let (out, rem) = rewrite_kitty_z(&input);
    assert!(rem.is_empty());
    let s = String::from_utf8(out).unwrap();
    assert!(s.contains("z=1"), "got: {s}");
    assert!(s.starts_with("\x1b_G"));
    assert!(s.ends_with("\x1b\\"));
}

#[test]
fn leaves_non_placement_alone() {
    let mut input = Vec::new();
    input.extend_from_slice(b"\x1b_Ga=d,d=A\x1b\\");
    let (out, _) = rewrite_kitty_z(&input);
    let s = String::from_utf8(out).unwrap();
    assert!(!s.contains("z="));
}

#[test]
fn buffers_incomplete_apc() {
    let input = b"\x1b_Ga=T,i=1";
    let (out, rem) = rewrite_kitty_z(input);
    assert!(out.is_empty());
    assert_eq!(rem.len(), input.len());
}

#[test]
fn preserves_existing_z() {
    let input = b"\x1b_Ga=T,z=5,i=1;X\x1b\\";
    let (out, _) = rewrite_kitty_z(input);
    let s = String::from_utf8(out).unwrap();
    assert!(s.contains("z=5"));
    assert!(!s.contains("z=1"));
}

#[test]
fn z_stands_behind_the_header() {
    let (out, rem) = rewrite_kitty_z(b"ab\x1b_Ga=T,i=1;QUJD\x1b\\cd");
    assert_eq!(out, b"ab\x1b_Ga=T,i=1,z=1;QUJD\x1b\\cd".to_vec());
    assert!(rem.is_empty());
}

#[test]
fn z_is_added_without_a_payload() {
    let (out, rem) = rewrite_kitty_z(b"\x1b_Gi=1,a=p\x1b\\");
    assert_eq!(out, b"\x1b_Gi=1,a=p,z=1\x1b\\".to_vec());
    assert!(rem.is_empty());
}

#[test]
fn a_field_counts_only_as_a_whole() {
    let text = b"\x1b_Ga=Tx,b=1;\x1b\\\x1b_Gxa=T;\x1b\\\x1b_Ga=T,xz=2;\x1b\\";
    let (out, _) = rewrite_kitty_z(text);
    assert_eq!(
        out,
        b"\x1b_Ga=Tx,b=1;\x1b\\\x1b_Gxa=T;\x1b\\\x1b_Ga=T,xz=2,z=1;\x1b\\".to_vec()
    );
}

#[test]
fn fields_of_the_payload_do_not_count() {
    let (out, _) = rewrite_kitty_z(b"\x1b_Gi=1;a=T\x1b\\\x1b_Ga=T;z=5\x1b\\");
    assert_eq!(out, b"\x1b_Gi=1;a=T\x1b\\\x1b_Ga=T,z=1;z=5\x1b\\".to_vec());
}

#[test]
fn a_header_that_is_no_text_is_kept() {
    let input = b"\x1b_Ga=T,i=\xff;X\x1b\\";
    let (out, rem) = rewrite_kitty_z(input);
    assert_eq!(out, input.to_vec());
    assert!(rem.is_empty());
}

#[test]
fn a_header_beyond_ascii_is_text() {
    let (out, _) = rewrite_kitty_z("\x1b_Gn=\u{e9},a=T;X\x1b\\".as_bytes());
    assert_eq!(out, "\x1b_Gn=\u{e9},a=T,z=1;X\x1b\\".as_bytes().to_vec());
}

#[test]
fn other_escapes_pass_through() {
    let (out, rem) = rewrite_kitty_z(b"\x1b[2J\x1b\x1b_Ga=p\x1b\\x");
    assert_eq!(out, b"\x1b[2J\x1b\x1b_Ga=p,z=1\x1b\\x".to_vec());
    assert!(rem.is_empty());
}

#[test]
fn a_short_escape_waits() {
    let (out, rem) = rewrite_kitty_z(b"text\x1b_");
    assert_eq!(out, b"text".to_vec());
    assert_eq!(rem, b"\x1b_".to_vec());
}

#[test]
fn cuts_do_not_matter() {
    let stream = b"x\x1b_Ga=T;AA\x1b\\y\x1b[m\x1b_Ga=d\x1b\\\x1b_Ga=p,i=2\x1b\\z".to_vec();
    let (whole, rest) = rewrite_kitty_z(&stream);
    assert!(rest.is_empty());
    for size in 1..stream.len() {
        let mut proxy = KittyProxy::new();
        let mut out: Vec<u8> = Vec::new();
        for chunk in stream.chunks(size) {
            out.extend(proxy.feed(chunk));
        }
        assert_eq!(out, whole);
    }
}

#[test]
fn a_second_pass_adds_nothing() {
    let (once, rest) = rewrite_kitty_z(b"a\x1b_Ga=T,i=1;AA\x1b\\\x1b_Ga=p\x1b\\b");
    assert!(rest.is_empty());
    let (twice, rest) = rewrite_kitty_z(&once);
    assert_eq!(twice, once);
    assert!(rest.is_empty());
    let (once, rest) = rewrite_kitty_z(b"\x1ba\x1b");
    assert_eq!((once.clone(), rest), (b"\x1ba".to_vec(), b"\x1b".to_vec()));
    assert_eq!(rewrite_kitty_z(&once), (Vec::new(), once));
}

#[test]
fn each_placement_grows_by_four_bytes() {
    let input = b"\x1b_Ga=T;A\x1b\\\x1b_Ga=T,z=2;A\x1b\\\x1b_Ga=p\x1b\\\x1b_Ga";
    let (out, rem) = rewrite_kitty_z(input);
    assert_eq!(rem, b"\x1b_Ga".to_vec());
    assert_eq!(out.len() + rem.len(), input.len() + 8);
}

#[test]
fn text_is_kept() {
    assert_eq!(rewrite_kitty_z(b"plain, a=T; text"), (b"plain, a=T; text".to_vec(), Vec::new()));
    assert_eq!(rewrite_kitty_z(b""), (Vec::new(), Vec::new()));
}

#[test]
fn what_waits_still_waits() {
    let (_, rem) = rewrite_kitty_z(b"ab\x1b_Ga=T,i=1;AAAA\x1b");
    assert_eq!(rem, b"\x1b_Ga=T,i=1;AAAA\x1b".to_vec());
    assert_eq!(rewrite_kitty_z(&rem), (Vec::new(), rem));
}

#[test]
fn graphics_are_cleared_by_one_command() {
    assert_eq!(clear_graphics(), b"\x1b_Ga=d,d=A\x1b\\".to_vec());
    assert_eq!(rewrite_kitty_z(&clear_graphics()), (clear_graphics(), Vec::new()));
}
