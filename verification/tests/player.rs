use embedded_video::geometry::{Rect, WindowSize};
use embedded_video::player::{
    cache_dir_error, terminal_fits, Action, EmbeddedVideo, IPC_FILE, LOG_FILE,
};
use embedded_video::streams::DirectUrls;

const KILL: Action = Action::Kill;
const CLEAR: Action = Action::ClearGraphics;
const PREFETCH: Action = Action::Prefetch;
const FRESH: Action = Action::Spawn { resume: false };
const RESUME: Action = Action::Spawn { resume: true };

const WINDOW: Option<WindowSize> =
    Some(WindowSize { rows: 50, columns: 200, width: 2000, height: 1000 });

fn rect(x: u16, y: u16, width: u16, height: u16) -> Rect {
    Rect { x, y, width, height }
}

fn playing(hint: Option<Rect>) -> EmbeddedVideo {
    let mut v = EmbeddedVideo::empty("/tmp/cache");
    assert_eq!(v.start("https://video", (200, 50), hint), [PREFETCH, FRESH]);
    assert_eq!(v.spawned(Ok(())), Ok(()));
    v
}

#[test]
fn an_empty_player_is_idle() {
    let v = EmbeddedVideo::empty("/tmp/cache");
    assert!(!v.is_playing());
    assert!(!v.is_fullscreen_active());
    assert_eq!(v.url, "");
    assert_eq!(v.rect, Rect::default());
    assert_eq!(v.ipc_path, "/tmp/cache/mpv-embedded.sock");
    assert_eq!(v.log_path, "/tmp/cache/mpv-embedded.log");
    assert_eq!((IPC_FILE, LOG_FILE), ("mpv-embedded.sock", "mpv-embedded.log"));
}

#[test]
fn paths_join_as_paths_do() {
    for dir in ["", "/", "a", "a/", "/a/b", "/\u{e9}"] {
        let v = EmbeddedVideo::empty(dir);
        let path = std::path::Path::new(dir).join(LOG_FILE);
        assert_eq!(v.log_path, path.display().to_string());
    }
}

#[test]
fn a_start_uses_the_panel() {
    let v = playing(None);
    assert!(v.is_playing());
    assert_eq!(v.url, "https://video");
    assert_eq!(v.rect, rect(1, 3, 60, 16));
    assert!(!v.is_fullscreen_active());
}

#[test]
fn a_start_uses_the_thumbnail() {
    assert_eq!(playing(Some(rect(2, 4, 30, 9))).rect, rect(3, 5, 30, 9));
    assert_eq!(playing(Some(rect(2, 4, 3, 9))).rect, rect(1, 3, 60, 16));
}

#[test]
fn a_start_stops_what_plays() {
    let mut v = playing(Some(rect(2, 4, 30, 9)));
    v.toggle_fullscreen((200, 50), WINDOW);
    v.spawned(Ok(())).unwrap();
    let actions = v.start("https://other", (100, 40), None);
    assert_eq!(actions, [KILL, CLEAR, PREFETCH, FRESH]);
    assert_eq!(v.url, "https://other");
    assert!(!v.fullscreen);
    assert!(!v.is_playing());
    assert_eq!(v.rect, rect(1, 3, 30, 8));
    assert_eq!(v.panel_hint, None);
}

#[test]
fn a_stop_forgets_the_thumbnail() {
    let mut v = playing(Some(rect(2, 4, 30, 9)));
    assert_eq!(v.stop(), [KILL, CLEAR]);
    assert!(!v.is_playing());
    assert_eq!(v.panel_hint, None);
    assert_eq!(v.stop(), [KILL, CLEAR]);
}

#[test]
fn a_toggle_goes_there_and_back() {
    let mut v = playing(Some(rect(2, 4, 30, 9)));
    assert_eq!(v.toggle_fullscreen((200, 50), WINDOW), [KILL, CLEAR, RESUME]);
    assert!(!v.is_playing());
    v.spawned(Ok(())).unwrap();
    assert!(v.is_fullscreen_active());
    assert_eq!(v.rect, rect(12, 1, 177, 50));
    assert_eq!(v.toggle_fullscreen((200, 50), WINDOW), [KILL, CLEAR, RESUME]);
    v.spawned(Ok(())).unwrap();
    assert!(!v.is_fullscreen_active());
    assert!(v.is_playing());
    assert_eq!(v.rect, rect(3, 5, 30, 9));
}

#[test]
fn an_idle_player_does_nothing() {
    let mut v = EmbeddedVideo::empty("");
    assert!(v.toggle_fullscreen((200, 50), WINDOW).is_empty());
    assert!(v.resize_for((200, 50), WINDOW).is_empty());
    assert!(v.close().is_empty());
    assert!(!v.fullscreen);
    assert_eq!(v.rect, Rect::default());
}

#[test]
fn a_resize_keeps_to_the_thumbnail() {
    let mut v = playing(Some(rect(2, 4, 30, 9)));
    assert_eq!(v.resize_for((90, 20), None), [KILL, CLEAR, RESUME]);
    assert_eq!(v.rect, rect(3, 5, 30, 9));
}

#[test]
fn a_resize_moves_the_rest() {
    let mut v = playing(None);
    assert_eq!(v.resize_for((100, 40), None), [KILL, CLEAR, RESUME]);
    assert_eq!(v.rect, rect(1, 3, 30, 8));
    v.spawned(Ok(())).unwrap();
    v.toggle_fullscreen((200, 50), WINDOW);
    v.spawned(Ok(())).unwrap();
    assert_eq!(v.resize_for((80, 24), None), [KILL, CLEAR, RESUME]);
    assert_eq!(v.rect, rect(1, 1, 80, 22));
    assert!(v.fullscreen);
}

#[test]
fn a_failed_spawn_is_reported() {
    let mut v = EmbeddedVideo::empty("");
    v.start("u", (80, 24), None);
    let res = v.spawned(Err("not found".to_string()));
    assert_eq!(res, Err("failed to spawn mpv: not found".to_string()));
    assert!(!v.is_playing());
    assert_eq!(
        cache_dir_error("/x", "denied"),
        "failed to create cache dir /x: denied"
    );
}

#[test]
fn closing_stops_what_plays() {
    let mut v = playing(None);
    assert_eq!(v.close(), [KILL, CLEAR]);
    assert!(!v.is_playing());
}

#[test]
fn one_player_at_a_time() {
    let mut v = EmbeddedVideo::empty("");
    let mut alive = false;
    for round in 0..12 {
        let actions = match round % 4 {
            0 => v.start("u", (80, 24), None),
            1 => v.toggle_fullscreen((80, 24), None),
            2 => v.resize_for((100, 40), None),
            _ => {
                if round == 11 {
                    v.stop()
                } else {
                    v.start("w", (80, 24), None)
                }
            }
        };
        for a in actions {
            match a {
                Action::Kill => alive = false,
                Action::Spawn { .. } => {
                    assert!(!alive);
                    alive = true;
                    v.spawned(Ok(())).unwrap();
                }
                _ => {}
            }
        }
        assert_eq!(alive, v.is_playing());
    }
    assert!(!alive);
}

#[test]
fn requests_go_through_the_player() {
    let v = EmbeddedVideo::empty("");
    assert_eq!(v.cycle_pause(), "{\"command\":[\"cycle\",\"pause\"]}");
    assert_eq!(v.send_keypress("a\"b"), "{\"command\":[\"keypress\",\"a\\\"b\"]}");
    assert_eq!(v.position_request(), "{\"command\":[\"get_property\",\"time-pos\"]}");
}

#[test]
fn a_first_spawn_resolves_the_url() {
    let v = playing(None);
    let args = v.mpv_args(Some((200, 50)), WINDOW, None);
    assert_eq!(
        args,
        [
            "--vo=kitty",
            "--vo-kitty-left=1",
            "--vo-kitty-top=3",
            "--vo-kitty-cols=200",
            "--vo-kitty-rows=50",
            "--vo-kitty-width=600",
            "--vo-kitty-height=320",
            "--vo-kitty-alt-screen=no",
            "--vo-kitty-config-clear=no",
            "--vo-kitty-use-shm=no",
            "--profile=sw-fast",
            "--msg-level=all=error",
            "--no-terminal",
            "--input-ipc-server=/tmp/cache/mpv-embedded.sock",
            "--keep-open=no",
            "--ytdl-format=bestvideo[height<=480]+bestaudio/best[height<=480]",
            "https://video",
        ]
    );
}

#[test]
fn a_later_spawn_opens_the_streams() {
    let mut v = playing(None);
    v.prefetched("https://video", true, b"V\nA\n");
    v.toggle_fullscreen((200, 50), WINDOW);
    let args = v.mpv_args(None, None, Some("12.5"));
    assert_eq!(
        args,
        [
            "--vo=kitty",
            "--vo-kitty-left=12",
            "--vo-kitty-top=1",
            "--vo-kitty-cols=80",
            "--vo-kitty-rows=24",
            "--vo-kitty-width=2124",
            "--vo-kitty-height=1200",
            "--vo-kitty-alt-screen=no",
            "--vo-kitty-config-clear=no",
            "--vo-kitty-use-shm=no",
            "--profile=sw-fast",
            "--msg-level=all=error",
            "--no-terminal",
            "--input-ipc-server=/tmp/cache/mpv-embedded.sock",
            "--keep-open=no",
            "--no-ytdl",
            "--audio-file=A",
            "--demuxer-lavf-o-add=probesize=131072,analyzeduration=200000",
            "--hr-seek=no",
            "--background=color",
            "--background-color=#FF000000",
            "--keepaspect=yes",
            "--video-align-x=0",
            "--video-align-y=0",
            "--start=12.5",
            "V",
        ]
    );
}

#[test]
fn a_muxed_stream_needs_no_audio_file() {
    let mut v = playing(None);
    v.direct_urls = Some(DirectUrls { video: "V".to_string(), audio: None });
    let args = v.mpv_args(Some((200, 50)), WINDOW, None);
    assert!(args.contains(&"--no-ytdl".to_string()));
    assert!(!args.iter().any(|a| a.starts_with("--audio-file")));
    assert_eq!(args.last().unwrap(), "V");
    assert_eq!(args.len(), 19);
}

#[test]
fn terminals_past_the_range_are_told() {
    assert!(terminal_fits((u16::MAX, u16::MAX), None));
    assert!(terminal_fits((200, 50), WINDOW));
    let huge = WindowSize { rows: 1, columns: 1, width: u16::MAX, height: u16::MAX };
    assert!(!terminal_fits((u16::MAX, 1), Some(huge)));
}

fn opened(v: &EmbeddedVideo) -> String {
    v.mpv_args(None, None, None).pop().unwrap()
}

#[test]
fn a_late_run_for_a_former_video_is_ignored() {
    let mut v = playing(None);
    v.start("https://other", (200, 50), None);
    v.prefetched("https://video", true, b"V\n");
    assert!(v.direct_urls.is_none());
    v.spawned(Ok(())).unwrap();
    v.prefetched("https://video", true, b"V\n");
    assert!(v.direct_urls.is_none());
    assert_eq!(opened(&v), "https://other");
    v.prefetched("https://other", true, b"W\n");
    v.prefetched("https://video", true, b"V\n");
    assert_eq!(opened(&v), "W");
}

#[test]
fn resolved_urls_last_until_the_video_ends() {
    let mut v = playing(None);
    assert!(v.direct_urls.is_none());
    v.prefetched("https://video", false, b"V\n");
    v.prefetched("https://video", true, b"\n");
    assert_eq!(opened(&v), "https://video");
    v.prefetched("https://video", true, b"V\n");
    v.toggle_fullscreen((200, 50), WINDOW);
    v.spawned(Ok(())).unwrap();
    assert_eq!(opened(&v), "V");
    v.resize_for((100, 40), None);
    v.spawned(Ok(())).unwrap();
    assert_eq!(opened(&v), "V");
    v.start("https://video", (200, 50), None);
    assert!(v.direct_urls.is_none());
    v.prefetched("https://video", true, b"V\n");
    v.stop();
    assert!(v.direct_urls.is_none());
}
