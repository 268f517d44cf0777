use embedded_video::streams::{
    direct_urls, entries_of, prefetch_args, prefetched, prefetched_for, DirectUrls,
};

fn pair(urls: &Option<DirectUrls>) -> Option<(String, Option<String>)> {
    urls.as_ref().map(|u| (u.video.clone(), u.audio.clone()))
}

fn both(video: &str, audio: &str) -> Option<(String, Option<String>)> {
    Some((video.to_string(), Some(audio.to_string())))
}

#[test]
fn two_lines_are_video_and_audio() {
    assert_eq!(pair(&direct_urls("https://v\nhttps://a\n")), both("https://v", "https://a"));
    assert_eq!(pair(&direct_urls("https://v\r\nhttps://a")), both("https://v", "https://a"));
    assert_eq!(pair(&direct_urls("v\na\nb\n")), both("v", "a"));
}

#[test]
fn one_line_is_muxed() {
    assert_eq!(pair(&direct_urls("https://v\n")), Some(("https://v".to_string(), None)));
}

#[test]
fn blank_lines_do_not_count() {
    assert_eq!(pair(&direct_urls("\n \t\n  v \n\r\n\u{3000}\u{a0}a\n\n")), both("v", "a"));
    assert!(direct_urls("").is_none());
    assert!(direct_urls(" \n\r\n\t").is_none());
}

#[test]
fn entries_are_trimmed_lines() {
    assert_eq!(entries_of(" a b \n\nc\r\n d"), ["a b", "c", "d"]);
    let text = "x\u{2003}\n\u{85}y\u{200b}\r\n";
    let expected: Vec<String> =
        text.lines().map(str::trim).filter(|l| !l.is_empty()).map(String::from).collect();
    assert_eq!(entries_of(text), expected);
}

#[test]
fn white_space_is_that_of_unicode() {
    for n in 0..0x110000u32 {
        if let Some(c) = char::from_u32(n) {
            let white = c.is_whitespace();
            let listed = matches!(
                n,
                0x9..=0xd | 0x20 | 0x85 | 0xa0 | 0x1680 | 0x2000..=0x200a | 0x2028 | 0x2029
                    | 0x202f | 0x205f | 0x3000
            );
            assert_eq!(white, listed);
        }
    }
}

#[test]
fn a_run_that_succeeds_fills_the_slot() {
    let mut slot = None;
    prefetched(&mut slot, true, b"v\na\n");
    assert_eq!(pair(&slot), both("v", "a"));
    prefetched(&mut slot, true, b"w\n");
    assert_eq!(pair(&slot), Some(("w".to_string(), None)));
}

#[test]
fn a_run_that_fails_leaves_the_slot() {
    let mut slot = None;
    prefetched(&mut slot, false, b"v\n");
    assert!(slot.is_none());
    prefetched(&mut slot, true, b"v\n");
    prefetched(&mut slot, false, b"w\n");
    prefetched(&mut slot, true, b" \n");
    assert_eq!(pair(&slot), Some(("v".to_string(), None)));
}

#[test]
fn output_that_is_no_text_is_patched() {
    let mut slot = None;
    prefetched(&mut slot, true, b"v\xff\n\xc3\xa9\n");
    assert_eq!(pair(&slot), both("v\u{fffd}", "\u{e9}"));
}

#[test]
fn the_url_stands_behind_the_options() {
    assert_eq!(
        prefetch_args("-x"),
        ["-g", "-f", "bestvideo[height<=480]+bestaudio/best", "--no-warnings", "--", "-x"]
    );
}

#[test]
fn a_run_for_another_video_leaves_the_slot() {
    let mut slot = None;
    prefetched_for(&mut slot, "u", "w", true, b"v\n");
    assert!(slot.is_none());
    prefetched_for(&mut slot, "w", "w", true, b"v\na\n");
    assert_eq!(pair(&slot), both("v", "a"));
    prefetched_for(&mut slot, "w", "", true, b"x\n");
    prefetched_for(&mut slot, "w", "w", false, b"x\n");
    assert_eq!(pair(&slot), both("v", "a"));
}
