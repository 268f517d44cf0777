//! The embedded player: what it shows, where, and what has to be done for it.
//!
//! [`EmbeddedVideo`] decides. Each operation changes the state and hands back
//! the [`Action`]s to perform, in order; the caller starts and kills processes,
//! and reports how a start went to [`EmbeddedVideo::spawned`].
use crate::geometry::{
    canvas_fits, cell_pixels, fullscreen_rect, panel_rect, sanitize_panel_rect,
    Rect, WindowSize,
};
use crate::ipc::{cycle_pause_request, get_property_request, keypress_request};
use crate::streams::{prefetched_for, DirectUrls};
use crate::text::{chars_of, joined, with_decimal};
use vstd::prelude::*;
use vstd::utf8::*;

verus! {

/// The name of the socket on which `mpv` takes requests.
pub const IPC_FILE: &'static str = "mpv-embedded.sock";

/// The name of the file that takes the error output of `mpv`.
pub const LOG_FILE: &'static str = "mpv-embedded.log";

/// One thing to do, outside.
#[derive(Clone, Copy, Debug, PartialEq, Eq, Structural)]
pub enum Action {
    /// Ask the running `mpv` for its position, end it, and remove its socket.
    Kill,
    /// Remove all images from the terminal.
    ClearGraphics,
    /// Begin to resolve the direct URLs of the current URL, in the background.
    Prefetch,
    /// Start `mpv`: at the position that the last `Kill` got, or at the beginning.
    Spawn { resume: bool },
}

/// A video that plays in the terminal, or none.
pub struct EmbeddedVideo {
    pub url: String,
    pub fullscreen: bool,
    pub rect: Rect,
    /// An `mpv` is running.
    pub playing: bool,
    pub ipc_path: String,
    pub log_path: String,
    /// The cells of the thumbnail that the video replaces, from `start` to `stop`.
    pub panel_hint: Option<Rect>,
    /// The direct URLs of the video, once they are resolved.
    pub direct_urls: Option<DirectUrls>,
}

/// The state of a player.
pub struct Player {
    pub url: Seq<char>,
    pub fullscreen: bool,
    pub rect: crate::geometry::Area,
    pub playing: bool,
    pub ipc_path: Seq<char>,
    pub log_path: Seq<char>,
    pub panel_hint: Option<crate::geometry::Area>,
    pub direct_urls: Option<(Seq<char>, Option<Seq<char>>)>,
}

/// The rectangle inside an optional one.
pub open spec fn area_in(r: Option<Rect>) -> Option<crate::geometry::Area> {
    match r {
        Some(r) => Some(r@),
        None => None,
    }
}

impl View for EmbeddedVideo {
    type V = Player;

    open spec fn view(&self) -> Player {
        Player {
            url: self.url@,
            fullscreen: self.fullscreen,
            rect: self.rect@,
            playing: self.playing,
            ipc_path: self.ipc_path@,
            log_path: self.log_path@,
            panel_hint: area_in(self.panel_hint),
            direct_urls: crate::streams::urls_in(self.direct_urls),
        }
    }
}

/// The path of the file `name` in the directory `dir`.
pub open spec fn path_in(dir: Seq<char>, name: Seq<char>) -> Seq<char> {
    if dir.len() == 0 || dir.last() == '/' {
        dir + name
    } else {
        dir + "/"@ + name
    }
}

/// The path of the file `name` in the directory `dir`.
fn file_in(dir: &str, name: &str) -> (path: String)
    ensures
        path@ == path_in(dir@, name@),
{
    let v = chars_of(dir);
    let mut path = dir.to_owned();
    if v.len() > 0 && v[v.len() - 1] != '/' {
        path.append("/");
    }
    path.append(name);
    path
}

/// The player of the directory `cache` before its first video.
pub open spec fn idle(cache: Seq<char>) -> Player {
    Player {
        url: Seq::empty(),
        fullscreen: false,
        rect: crate::geometry::Area { x: 0, y: 0, width: 0, height: 0 },
        playing: false,
        ipc_path: path_in(cache, IPC_FILE@),
        log_path: path_in(cache, LOG_FILE@),
        panel_hint: None,
        direct_urls: None,
    }
}

/// Where the video stands in panel mode: on the thumbnail's cells where they are
/// known, else in the panel of the terminal.
pub open spec fn panel_of(
    hint: Option<crate::geometry::Area>,
    term: (u16, u16),
) -> crate::geometry::Area {
    match hint {
        Some(a) if a.width > 0 && a.height > 0 => a,
        _ => crate::geometry::panel_area(term.0 as int, term.1 as int),
    }
}

/// Where the video stands in its mode.
pub open spec fn place_of(
    fullscreen: bool,
    hint: Option<crate::geometry::Area>,
    term: (u16, u16),
    window: Option<WindowSize>,
) -> crate::geometry::Area {
    if fullscreen {
        crate::geometry::fullscreen_area(
            term.0 as int,
            term.1 as int,
            crate::geometry::cell_size(window),
        )
    } else {
        panel_of(hint, term)
    }
}

/// What is kept of the thumbnail's cells.
pub open spec fn kept_hint(hint: Option<Rect>) -> Option<crate::geometry::Area> {
    match hint {
        Some(r) if crate::geometry::holds_video(r) => Some(crate::geometry::inset(r)),
        _ => None,
    }
}

/// The player after `stop`.
pub open spec fn after_stop(p: Player) -> Player {
    Player { playing: false, panel_hint: None, direct_urls: None, ..p }
}

/// What `stop` has to do.
pub open spec fn stop_actions() -> Seq<Action> {
    seq![Action::Kill, Action::ClearGraphics]
}

/// The player after `start`, before `mpv` runs.
pub open spec fn after_start(
    p: Player,
    url: Seq<char>,
    term: (u16, u16),
    hint: Option<Rect>,
) -> Player {
    Player {
        url,
        fullscreen: false,
        rect: panel_of(kept_hint(hint), term),
        playing: false,
        panel_hint: kept_hint(hint),
        direct_urls: None,
        ..p
    }
}

/// What `start` has to do: a video that plays is stopped first.
pub open spec fn start_actions(playing: bool) -> Seq<Action> {
    let fresh = seq![Action::Prefetch, Action::Spawn { resume: false }];
    if playing {
        stop_actions() + fresh
    } else {
        fresh
    }
}

/// The player in the given mode, before `mpv` runs again.
pub open spec fn after_respawn(
    p: Player,
    fullscreen: bool,
    term: (u16, u16),
    window: Option<WindowSize>,
) -> Player {
    Player {
        fullscreen,
        rect: place_of(fullscreen, p.panel_hint, term, window),
        playing: false,
        ..p
    }
}

/// What it takes to start `mpv` again where it was.
pub open spec fn respawn_actions() -> Seq<Action> {
    seq![Action::Kill, Action::ClearGraphics, Action::Spawn { resume: true }]
}

/// The player after `toggle_fullscreen`, before `mpv` runs again.
pub open spec fn after_toggle(p: Player, term: (u16, u16), window: Option<WindowSize>) -> Player {
    if p.playing {
        after_respawn(p, !p.fullscreen, term, window)
    } else {
        p
    }
}

/// The player after `resize_for`, before `mpv` runs again.
pub open spec fn after_resize(p: Player, term: (u16, u16), window: Option<WindowSize>) -> Player {
    if p.playing {
        after_respawn(p, p.fullscreen, term, window)
    } else {
        p
    }
}

/// The player with `mpv` running.
pub open spec fn running(p: Player) -> Player {
    Player { playing: true, ..p }
}

/// The player after a run that was to resolve the video at `asked` has ended with
/// the URLs `found`. Only a run for the current video counts, and only one that
/// found any.
pub open spec fn after_prefetch(
    p: Player,
    asked: Seq<char>,
    found: Option<(Seq<char>, Option<Seq<char>>)>,
) -> Player {
    if asked == p.url && found is Some {
        Player { direct_urls: found, ..p }
    } else {
        p
    }
}

/// The place of a video in fullscreen can be computed.
pub open spec fn terminal_in_range(term: (u16, u16), window: Option<WindowSize>) -> bool {
    crate::geometry::canvas_in_range(
        term.0 as int,
        term.1 as int,
        crate::geometry::cell_size(window),
    )
}

/// Whether the place of a video in fullscreen can be computed.
pub fn terminal_fits(term_size: (u16, u16), window: Option<WindowSize>) -> (b: bool)
    ensures
        b == terminal_in_range(term_size, window),
{
    canvas_fits(term_size, cell_pixels(window))
}

/// The columns and rows of the terminal, or those of a common one where they are
/// not known.
pub open spec fn known_size(term: Option<(u16, u16)>) -> (u16, u16) {
    match term {
        Some(size) => size,
        None => (80, 24),
    }
}

/// The arguments of `mpv` that say where it draws and how it is reached.
pub open spec fn screen_arguments(
    p: Player,
    term: (u16, u16),
    cell: (int, int),
) -> Seq<Seq<char>> {
    seq![
        "--vo=kitty"@,
        "--vo-kitty-left="@ + crate::text::decimal(p.rect.x as nat),
        "--vo-kitty-top="@ + crate::text::decimal(p.rect.y as nat),
        "--vo-kitty-cols="@ + crate::text::decimal(term.0 as nat),
        "--vo-kitty-rows="@ + crate::text::decimal(term.1 as nat),
        "--vo-kitty-width="@ + crate::text::decimal((p.rect.width * cell.0) as nat),
        "--vo-kitty-height="@ + crate::text::decimal((p.rect.height * cell.1) as nat),
        "--vo-kitty-alt-screen=no"@,
        "--vo-kitty-config-clear=no"@,
        "--vo-kitty-use-shm=no"@,
        "--profile=sw-fast"@,
        "--msg-level=all=error"@,
        "--no-terminal"@,
        "--input-ipc-server="@ + p.ipc_path,
        "--keep-open=no"@,
    ]
}

/// The arguments of `mpv` that say how it gets at the video. With direct URLs it
/// resolves nothing, probes little, and seeks to keyframes.
pub open spec fn source_arguments(
    direct: Option<(Seq<char>, Option<Seq<char>>)>,
) -> Seq<Seq<char>> {
    match direct {
        Some((_, Some(audio))) => seq![
            "--no-ytdl"@,
            "--audio-file="@ + audio,
            "--demuxer-lavf-o-add=probesize=131072,analyzeduration=200000"@,
            "--hr-seek=no"@,
        ],
        Some((_, None)) => seq![
            "--no-ytdl"@,
            "--demuxer-lavf-o-add=probesize=131072,analyzeduration=200000"@,
            "--hr-seek=no"@,
        ],
        None => seq!["--ytdl-format=bestvideo[height<=480]+bestaudio/best[height<=480]"@],
    }
}

/// The arguments of `mpv` in its mode.
pub open spec fn mode_arguments(fullscreen: bool) -> Seq<Seq<char>> {
    if fullscreen {
        seq![
            "--background=color"@,
            "--background-color=#FF000000"@,
            "--keepaspect=yes"@,
            "--video-align-x=0"@,
            "--video-align-y=0"@,
        ]
    } else {
        Seq::empty()
    }
}

/// The argument of `mpv` that says where playback begins.
pub open spec fn position_arguments(pos: Option<Seq<char>>) -> Seq<Seq<char>> {
    match pos {
        Some(pos) => seq!["--start="@ + pos],
        None => Seq::empty(),
    }
}

/// What `mpv` opens.
pub open spec fn source(p: Player) -> Seq<char> {
    match p.direct_urls {
        Some((video, _)) => video,
        None => p.url,
    }
}

/// The options of `mpv`.
pub open spec fn options(
    p: Player,
    term: (u16, u16),
    cell: (int, int),
    pos: Option<Seq<char>>,
) -> Seq<Seq<char>> {
    screen_arguments(p, term, cell) + source_arguments(p.direct_urls) + mode_arguments(
        p.fullscreen,
    ) + position_arguments(pos)
}

/// The text inside an optional string slice.
pub open spec fn str_in(s: Option<&str>) -> Option<Seq<char>> {
    match s {
        Some(t) => Some(t@),
        None => None,
    }
}

/// Appends a fixed argument.
fn push_arg(args: &mut Vec<String>, arg: &str)
    ensures
        crate::text::texts(final(args)@) == crate::text::texts(old(args)@).push(arg@),
{
    let ghost before = args@;
    args.push(arg.to_owned());
    assert(crate::text::texts(args@) =~= crate::text::texts(before).push(arg@));
}

/// Appends an argument with a number.
fn push_number(args: &mut Vec<String>, option: &str, n: u32)
    ensures
        crate::text::texts(final(args)@) == crate::text::texts(old(args)@).push(
            option@ + crate::text::decimal(n as nat),
        ),
{
    let arg = with_decimal(option, n);
    push_arg(args, arg.as_str());
}

/// Appends an argument with a text.
fn push_text(args: &mut Vec<String>, option: &str, text: &str)
    ensures
        crate::text::texts(final(args)@) == crate::text::texts(old(args)@).push(option@ + text@),
{
    let arg = joined(option, text);
    push_arg(args, arg.as_str());
}

/// The length of `cells` cells of `pixels` pixels each.
fn pixels_of(cells: u16, pixels: u16) -> (n: u32)
    ensures
        n == cells * pixels,
{
    assert(cells * pixels <= 65535 * 65535) by (nonlinear_arith)
        requires
            cells <= 65535,
            pixels <= 65535,
    ;
    assert(0 <= cells * pixels) by (nonlinear_arith);
    cells as u32 * pixels as u32
}

impl EmbeddedVideo {
    /// A player without a video, with its files in the directory `cache`.
    pub fn empty(cache: &str) -> (v: Self)
        ensures
            v@ == idle(cache@),
    {
        EmbeddedVideo {
            url: String::new(),
            fullscreen: false,
            rect: Rect::default(),
            playing: false,
            ipc_path: file_in(cache, IPC_FILE),
            log_path: file_in(cache, LOG_FILE),
            panel_hint: None,
            direct_urls: None,
        }
    }

    /// Whether an `mpv` is running.
    pub fn is_playing(&self) -> (b: bool)
        ensures
            b == self@.playing,
    {
        self.playing
    }

    /// Whether a video plays in fullscreen.
    pub fn is_fullscreen_active(&self) -> (b: bool)
        ensures
            b == (self@.playing && self@.fullscreen),
    {
        self.is_playing() && self.fullscreen
    }

    /// Where the video stands in panel mode.
    fn current_panel_rect(&self, term_size: (u16, u16)) -> (r: Rect)
        ensures
            r@ == panel_of(self@.panel_hint, term_size),
    {
        match self.panel_hint {
            Some(r) if r.width > 0 && r.height > 0 => r,
            _ => panel_rect(term_size),
        }
    }

    /// Stops the video.
    pub fn stop(&mut self) -> (actions: Vec<Action>)
        ensures
            final(self)@ == after_stop(old(self)@),
            actions@ == stop_actions(),
    {
        self.playing = false;
        self.panel_hint = None;
        self.direct_urls = None;
        let actions = vec![Action::Kill, Action::ClearGraphics];
        assert(actions@ =~= stop_actions());
        actions
    }

    /// Starts the video at `url`, in panel mode. `panel_hint` are the cells of its
    /// thumbnail, where they are known.
    pub fn start(
        &mut self,
        url: &str,
        term_size: (u16, u16),
        panel_hint: Option<Rect>,
    ) -> (actions: Vec<Action>)
        requires
            panel_hint matches Some(r) ==> crate::geometry::inset_in_range(r),
        ensures
            final(self)@ == after_start(old(self)@, url@, term_size, panel_hint),
            actions@ == start_actions(old(self)@.playing),
    {
        let mut actions: Vec<Action> = Vec::new();
        if self.is_playing() {
            actions = self.stop();
        }
        self.url = url.to_owned();
        self.fullscreen = false;
        self.panel_hint = match panel_hint {
            Some(r) => sanitize_panel_rect(r),
            None => None,
        };
        self.rect = self.current_panel_rect(term_size);
        self.direct_urls = None;
        actions.push(Action::Prefetch);
        actions.push(Action::Spawn { resume: false });
        assert(actions@ =~= start_actions(old(self)@.playing));
        actions
    }

    /// Where the video stands in its mode.
    fn current_rect(&self, term_size: (u16, u16), window: Option<WindowSize>) -> (r: Rect)
        requires
            self.fullscreen ==> terminal_in_range(term_size, window),
        ensures
            r@ == place_of(self.fullscreen, self@.panel_hint, term_size, window),
    {
        if self.fullscreen {
            fullscreen_rect(term_size, cell_pixels(window))
        } else {
            self.current_panel_rect(term_size)
        }
    }

    /// What it takes to start `mpv` again in the mode that is set.
    fn respawn(&mut self, term_size: (u16, u16), window: Option<WindowSize>) -> (actions: Vec<
        Action,
    >)
        requires
            old(self)@.fullscreen ==> terminal_in_range(term_size, window),
        ensures
            final(self)@ == after_respawn(
                old(self)@,
                old(self)@.fullscreen,
                term_size,
                window,
            ),
            actions@ == respawn_actions(),
    {
        self.playing = false;
        self.rect = self.current_rect(term_size, window);
        let actions = vec![Action::Kill, Action::ClearGraphics, Action::Spawn { resume: true }];
        assert(actions@ =~= respawn_actions());
        actions
    }

    /// Goes from panel mode to fullscreen or back, where a video plays.
    pub fn toggle_fullscreen(
        &mut self,
        term_size: (u16, u16),
        window: Option<WindowSize>,
    ) -> (actions: Vec<Action>)
        requires
            old(self)@.playing && !old(self)@.fullscreen ==> terminal_in_range(term_size, window),
        ensures
            final(self)@ == after_toggle(old(self)@, term_size, window),
            actions@ == if old(self)@.playing {
                respawn_actions()
            } else {
                Seq::empty()
            },
    {
        if !self.is_playing() {
            return Vec::new();
        }
        self.fullscreen = !self.fullscreen;
        self.respawn(term_size, window)
    }

    /// Fits the video, where one plays, to a terminal of another size.
    pub fn resize_for(
        &mut self,
        term_size: (u16, u16),
        window: Option<WindowSize>,
    ) -> (actions: Vec<Action>)
        requires
            old(self)@.playing && old(self)@.fullscreen ==> terminal_in_range(term_size, window),
        ensures
            final(self)@ == after_resize(old(self)@, term_size, window),
            actions@ == if old(self)@.playing {
                respawn_actions()
            } else {
                Seq::empty()
            },
    {
        if !self.is_playing() {
            return Vec::new();
        }
        self.respawn(term_size, window)
    }

    /// Takes the outcome of a `Spawn`: the error is the one with which `mpv` could
    /// not be started.
    pub fn spawned(&mut self, outcome: Result<(), String>) -> (res: Result<(), String>)
        ensures
            outcome is Ok ==> res is Ok && final(self)@ == running(old(self)@),
            outcome matches Err(e) ==> {
                &&& res matches Err(message) && message@ == "failed to spawn mpv: "@ + e@
                &&& final(self)@ == old(self)@
            },
    {
        match outcome {
            Ok(()) => {
                self.playing = true;
                Ok(())
            },
            Err(e) => Err(joined("failed to spawn mpv: ", e.as_str())),
        }
    }

    /// Takes the end of a `yt-dlp` run that was to resolve the video at `asked`.
    pub fn prefetched(&mut self, asked: &str, succeeded: bool, stdout: &[u8])
        ensures
            final(self)@ == after_prefetch(
                old(self)@,
                asked@,
                crate::streams::found(succeeded, stdout@),
            ),
            asked@ == old(self)@.url && succeeded && valid_utf8(stdout@)
                ==> crate::text::utf8_lossy(stdout@) == decode_utf8(stdout@),
    {
        prefetched_for(&mut self.direct_urls, asked, self.url.as_str(), succeeded, stdout);
    }

    /// Leaves the player for good: a video that plays is stopped.
    pub fn close(&mut self) -> (actions: Vec<Action>)
        ensures
            final(self)@ == if old(self)@.playing {
                after_stop(old(self)@)
            } else {
                old(self)@
            },
            actions@ == if old(self)@.playing {
                stop_actions()
            } else {
                Seq::empty()
            },
    {
        if self.is_playing() {
            self.stop()
        } else {
            Vec::new()
        }
    }

    /// The request to pause, or to go on.
    pub fn cycle_pause(&self) -> (request: String)
        ensures
            request@ == "{\"command\":[\"cycle\",\"pause\"]}"@,
    {
        cycle_pause_request()
    }

    /// The request to press the key that `mpv` calls `name`.
    pub fn send_keypress(&self, name: &str) -> (request: String)
        ensures
            request@ == crate::ipc::keypress(name@),
    {
        keypress_request(name)
    }

    /// The request for the position of the video.
    pub fn position_request(&self) -> (request: String)
        ensures
            request@ == crate::ipc::get_property("time-pos"@),
    {
        get_property_request("time-pos")
    }

    /// The arguments of `mpv`. `term_size` and `window` are what the terminal says
    /// of itself, `start_pos` the position to resume at, in seconds.
    pub fn mpv_args(
        &self,
        term_size: Option<(u16, u16)>,
        window: Option<WindowSize>,
        start_pos: Option<&str>,
    ) -> (args: Vec<String>)
        ensures
            crate::text::texts(args@) == options(
                self@,
                known_size(term_size),
                crate::geometry::cell_size(window),
                str_in(start_pos),
            ).push(source(self@)),
    {
        let term = match term_size {
            Some(size) => size,
            None => (80, 24),
        };
        let mut args = self.screen_args(term, cell_pixels(window));
        push_source_args(&mut args, &self.direct_urls);
        push_mode_args(&mut args, self.fullscreen);
        match start_pos {
            Some(pos) => {
                push_text(&mut args, "--start=", pos);
            },
            None => {},
        }
        assert(crate::text::texts(args@) =~= options(
            self@,
            known_size(term_size),
            crate::geometry::cell_size(window),
            str_in(start_pos),
        ));
        match &self.direct_urls {
            Some(urls) => {
                push_arg(&mut args, urls.video.as_str());
            },
            None => {
                push_arg(&mut args, self.url.as_str());
            },
        }
        args
    }

    /// The arguments that say where `mpv` draws and how it is reached.
    fn screen_args(&self, term: (u16, u16), cell: (u16, u16)) -> (args: Vec<String>)
        ensures
            crate::text::texts(args@) == screen_arguments(
                self@,
                term,
                (cell.0 as int, cell.1 as int),
            ),
    {
        let mut args: Vec<String> = Vec::new();
        push_arg(&mut args, "--vo=kitty");
        push_number(&mut args, "--vo-kitty-left=", self.rect.x as u32);
        push_number(&mut args, "--vo-kitty-top=", self.rect.y as u32);
        push_number(&mut args, "--vo-kitty-cols=", term.0 as u32);
        push_number(&mut args, "--vo-kitty-rows=", term.1 as u32);
        push_number(&mut args, "--vo-kitty-width=", pixels_of(self.rect.width, cell.0));
        push_number(&mut args, "--vo-kitty-height=", pixels_of(self.rect.height, cell.1));
        push_arg(&mut args, "--vo-kitty-alt-screen=no");
        push_arg(&mut args, "--vo-kitty-config-clear=no");
        push_arg(&mut args, "--vo-kitty-use-shm=no");
        push_arg(&mut args, "--profile=sw-fast");
        push_arg(&mut args, "--msg-level=all=error");
        push_arg(&mut args, "--no-terminal");
        push_text(&mut args, "--input-ipc-server=", self.ipc_path.as_str());
        push_arg(&mut args, "--keep-open=no");
        assert(crate::text::texts(args@) =~= screen_arguments(
            self@,
            term,
            (cell.0 as int, cell.1 as int),
        ));
        args
    }
}

/// Appends the arguments that say how `mpv` gets at the video.
fn push_source_args(args: &mut Vec<String>, direct: &Option<DirectUrls>)
    ensures
        crate::text::texts(final(args)@) == crate::text::texts(old(args)@) + source_arguments(
            crate::streams::urls_in(*direct),
        ),
{
    let ghost before = crate::text::texts(args@);
    match direct {
        Some(urls) => {
            push_arg(args, "--no-ytdl");
            match &urls.audio {
                Some(audio) => {
                    push_text(args, "--audio-file=", audio.as_str());
                },
                None => {},
            }
            push_arg(args, "--demuxer-lavf-o-add=probesize=131072,analyzeduration=200000");
            push_arg(args, "--hr-seek=no");
        },
        None => {
            push_arg(args, "--ytdl-format=bestvideo[height<=480]+bestaudio/best[height<=480]");
        },
    }
    assert(crate::text::texts(args@) =~= before + source_arguments(crate::streams::urls_in(*direct)));
}

/// Appends the arguments of `mpv` in its mode.
fn push_mode_args(args: &mut Vec<String>, fullscreen: bool)
    ensures
        crate::text::texts(final(args)@) == crate::text::texts(old(args)@) + mode_arguments(
            fullscreen,
        ),
{
    let ghost before = crate::text::texts(args@);
    if fullscreen {
        push_arg(args, "--background=color");
        push_arg(args, "--background-color=#FF000000");
        push_arg(args, "--keepaspect=yes");
        push_arg(args, "--video-align-x=0");
        push_arg(args, "--video-align-y=0");
    }
    assert(crate::text::texts(args@) =~= before + mode_arguments(fullscreen));
}

/// The message where the directory `dir` could not be made.
pub fn cache_dir_error(dir: &str, error: &str) -> (message: String)
    ensures
        message@ == "failed to create cache dir "@ + dir@ + ": "@ + error@,
{
    let mut message = joined("failed to create cache dir ", dir);
    message.append(": ");
    message.append(error);
    message
}

/// Whether an `mpv` runs after the actions, where `alive` says whether one runs
/// before them and every start succeeds. `None` where a second one would be
/// started beside the first.
pub open spec fn alive_after(alive: bool, actions: Seq<Action>) -> Option<bool>
    decreases actions.len(),
{
    if actions.len() == 0 {
        Some(alive)
    } else {
        match actions[0] {
            Action::Kill => alive_after(false, actions.skip(1)),
            Action::Spawn { .. } => if alive {
                None
            } else {
                alive_after(true, actions.skip(1))
            },
            _ => alive_after(alive, actions.skip(1)),
        }
    }
}

proof fn lemma_alive_first(alive: bool, actions: Seq<Action>, tail: Seq<Action>)
    requires
        actions.len() > 0,
        actions.skip(1) =~= tail,
    ensures
        alive_after(alive, actions) == match actions[0] {
            Action::Kill => alive_after(false, tail),
            Action::Spawn { .. } => if alive {
                None
            } else {
                alive_after(true, tail)
            },
            _ => alive_after(alive, tail),
        },
{
}

proof fn lemma_alive_spawn(actions: Seq<Action>)
    requires
        actions.len() == 1,
        actions[0] is Spawn,
    ensures
        alive_after(false, actions) == Some(true),
{
    lemma_alive_first(false, actions, actions.skip(1));
}

/// No operation leaves two `mpv` running: one that runs is ended before another
/// is started. `stop` leaves none running, and the others leave one.
pub proof fn law_one_at_a_time(playing: bool)
    ensures
        alive_after(playing, start_actions(playing)) == Some(true),
        alive_after(playing, respawn_actions()) == Some(true),
        alive_after(playing, stop_actions()) == Some(false),
{
    let s = stop_actions();
    lemma_alive_first(playing, s, s.skip(1));
    lemma_alive_first(false, s.skip(1), s.skip(2));
    let r = respawn_actions();
    lemma_alive_first(playing, r, r.skip(1));
    lemma_alive_first(false, r.skip(1), r.skip(2));
    lemma_alive_spawn(r.skip(2));
    let a = start_actions(playing);
    if playing {
        lemma_alive_first(playing, a, a.skip(1));
        lemma_alive_first(false, a.skip(1), a.skip(2));
        lemma_alive_first(false, a.skip(2), a.skip(3));
        lemma_alive_spawn(a.skip(3));
    } else {
        lemma_alive_first(playing, a, a.skip(1));
        lemma_alive_spawn(a.skip(1));
    }
}

/// The cells that are kept of a thumbnail can hold a video.
pub open spec fn well_formed(p: Player) -> bool {
    p.panel_hint matches Some(a) ==> a.width >= 5 && a.height >= 3
}

/// The cells that are kept can hold a video before the first video, and after
/// every operation where they could before it; after `start`, in any case.
pub proof fn law_well_formed(
    p: Player,
    cache: Seq<char>,
    url: Seq<char>,
    term: (u16, u16),
    hint: Option<Rect>,
    window: Option<WindowSize>,
    asked: Seq<char>,
    found: Option<(Seq<char>, Option<Seq<char>>)>,
)
    ensures
        well_formed(idle(cache)),
        well_formed(after_start(p, url, term, hint)),
        well_formed(after_stop(p)),
        well_formed(p) ==> well_formed(after_toggle(p, term, window)),
        well_formed(p) ==> well_formed(after_resize(p, term, window)),
        well_formed(p) ==> well_formed(running(p)),
        well_formed(p) ==> well_formed(after_prefetch(p, asked, found)),
{
}

/// Toggling twice in one terminal, with `mpv` started again each time, gives back
/// the player as it was, if it stood where its mode puts it.
pub proof fn law_toggle_twice(p: Player, term: (u16, u16), window: Option<WindowSize>)
    requires
        p.playing,
        p.rect == place_of(p.fullscreen, p.panel_hint, term, window),
    ensures
        running(after_toggle(running(after_toggle(p, term, window)), term, window)) == p,
{
}

/// Every operation that starts `mpv` leaves the video where its mode puts it.
pub proof fn law_stands_in_place(
    p: Player,
    url: Seq<char>,
    term: (u16, u16),
    hint: Option<Rect>,
    window: Option<WindowSize>,
)
    ensures
        ({
            let q = after_start(p, url, term, hint);
            q.rect == place_of(q.fullscreen, q.panel_hint, term, window)
        }),
        p.playing ==> ({
            let q = after_toggle(p, term, window);
            q.rect == place_of(q.fullscreen, q.panel_hint, term, window)
        }),
        p.playing ==> ({
            let q = after_resize(p, term, window);
            q.rect == place_of(q.fullscreen, q.panel_hint, term, window)
        }),
{
}

/// A video on the cells of its thumbnail stays on them whatever size the terminal
/// takes.
pub proof fn law_hint_pins_panel(
    p: Player,
    url: Seq<char>,
    first: (u16, u16),
    thumbnail: Rect,
    term: (u16, u16),
    window: Option<WindowSize>,
)
    requires
        crate::geometry::holds_video(thumbnail),
    ensures
        ({
            let q = running(after_start(p, url, first, Some(thumbnail)));
            &&& q.rect == crate::geometry::inset(thumbnail)
            &&& after_resize(q, term, window).rect == crate::geometry::inset(thumbnail)
        }),
{
}

/// Stopping forgets the thumbnail and the direct URLs, and stopping again changes
/// nothing.
pub proof fn law_stop_again(p: Player)
    ensures
        !after_stop(p).playing,
        after_stop(p).panel_hint is None,
        after_stop(p).direct_urls is None,
        after_stop(after_stop(p)) == after_stop(p),
{
}

/// What a start leads to depends on nothing that was played before.
pub proof fn law_start_is_fresh(
    p: Player,
    q: Player,
    url: Seq<char>,
    term: (u16, u16),
    hint: Option<Rect>,
)
    requires
        p.ipc_path == q.ipc_path,
        p.log_path == q.log_path,
    ensures
        after_start(p, url, term, hint) == after_start(q, url, term, hint),
{
}

proof fn lemma_differ(a: Seq<char>, b: Seq<char>, i: int)
    requires
        0 <= i < a.len(),
        i >= b.len() || a[i] != b[i],
    ensures
        a != b,
{
}

/// With direct URLs `mpv` resolves nothing itself: it is told so, is given the
/// audio where that is a stream of its own, and opens the direct video.
pub proof fn law_direct_urls_are_opened(
    p: Player,
    term: (u16, u16),
    cell: (int, int),
    video: Seq<char>,
    audio: Option<Seq<char>>,
    pos: Option<Seq<char>>,
)
    requires
        p.direct_urls == Some((video, audio)),
    ensures
        ({
            let o = options(p, term, cell, pos);
            &&& o.contains("--no-ytdl"@)
            &&& audio matches Some(a) ==> o.contains("--audio-file="@ + a)
            &&& source(p) == video
        }),
{
    let o = options(p, term, cell, pos);
    assert(o[15] == "--no-ytdl"@);
    if let Some(a) = audio {
        assert(o[16] == "--audio-file="@ + a);
    }
}

/// Without direct URLs `mpv` is left to resolve the video's own URL.
pub proof fn law_url_is_resolved(
    p: Player,
    term: (u16, u16),
    cell: (int, int),
    pos: Option<Seq<char>>,
)
    requires
        p.direct_urls is None,
    ensures
        ({
            let o = options(p, term, cell, pos);
            &&& !o.contains("--no-ytdl"@)
            &&& source(p) == p.url
        }),
{
    let o = options(p, term, cell, pos);
    let key = "--no-ytdl"@;
    reveal_strlit("--no-ytdl");
    reveal_strlit("--vo=kitty");
    reveal_strlit("--vo-kitty-left=");
    reveal_strlit("--vo-kitty-top=");
    reveal_strlit("--vo-kitty-cols=");
    reveal_strlit("--vo-kitty-rows=");
    reveal_strlit("--vo-kitty-width=");
    reveal_strlit("--vo-kitty-height=");
    reveal_strlit("--vo-kitty-alt-screen=no");
    reveal_strlit("--vo-kitty-config-clear=no");
    reveal_strlit("--vo-kitty-use-shm=no");
    reveal_strlit("--profile=sw-fast");
    reveal_strlit("--msg-level=all=error");
    reveal_strlit("--no-terminal");
    reveal_strlit("--input-ipc-server=");
    reveal_strlit("--keep-open=no");
    reveal_strlit("--ytdl-format=bestvideo[height<=480]+bestaudio/best[height<=480]");
    reveal_strlit("--background=color");
    reveal_strlit("--background-color=#FF000000");
    reveal_strlit("--keepaspect=yes");
    reveal_strlit("--video-align-x=0");
    reveal_strlit("--video-align-y=0");
    reveal_strlit("--start=");
    assert forall|i: int| 0 <= i < o.len() implies o[i] != key by {
        if i == 12 {
            lemma_differ(o[i], key, 5);
        } else {
            lemma_differ(o[i], key, 2);
        }
    }
}

/// A position to resume at is one more option, the last; nothing else depends on
/// it.
pub proof fn law_position_is_last(
    p: Player,
    term: (u16, u16),
    cell: (int, int),
    pos: Seq<char>,
)
    ensures
        options(p, term, cell, Some(pos)).last() == "--start="@ + pos,
        options(p, term, cell, Some(pos)).drop_last() == options(p, term, cell, None),
{
    assert(options(p, term, cell, Some(pos)).drop_last() =~= options(p, term, cell, None));
}

/// Once the URLs are resolved, they stay for every start of `mpv` until the video
/// is stopped or another begins.
pub proof fn law_urls_last(p: Player, term: (u16, u16), window: Option<WindowSize>)
    ensures
        after_toggle(p, term, window).direct_urls == p.direct_urls,
        after_resize(p, term, window).direct_urls == p.direct_urls,
        running(p).direct_urls == p.direct_urls,
{
}

/// Where a second video was started after the first, a run for the first that
/// ends only now changes nothing: no URL of the first is held, whether `mpv` runs
/// already or not.
pub proof fn law_late_run_is_ignored(
    p: Player,
    first: Seq<char>,
    first_term: (u16, u16),
    first_hint: Option<Rect>,
    second: Seq<char>,
    term: (u16, u16),
    hint: Option<Rect>,
    found: Option<(Seq<char>, Option<Seq<char>>)>,
)
    requires
        first != second,
    ensures
        ({
            let q = after_start(
                running(after_start(p, first, first_term, first_hint)),
                second,
                term,
                hint,
            );
            &&& q.direct_urls is None
            &&& after_prefetch(q, first, found) == q
            &&& after_prefetch(running(q), first, found) == running(q)
        }),
{
}

/// Something that happens to a player.
pub enum Event {
    Start { url: Seq<char>, term: (u16, u16), hint: Option<Rect> },
    Stop,
    Toggle { term: (u16, u16), window: Option<WindowSize> },
    Resize { term: (u16, u16), window: Option<WindowSize> },
    /// `mpv` was started.
    Spawned,
    /// A run for the video at `asked` has ended.
    Prefetched { asked: Seq<char>, found: Option<(Seq<char>, Option<Seq<char>>)> },
}

/// The player after one event.
pub open spec fn after_event(p: Player, event: Event) -> Player {
    match event {
        Event::Start { url, term, hint } => after_start(p, url, term, hint),
        Event::Stop => after_stop(p),
        Event::Toggle { term, window } => after_toggle(p, term, window),
        Event::Resize { term, window } => after_resize(p, term, window),
        Event::Spawned => running(p),
        Event::Prefetched { asked, found } => after_prefetch(p, asked, found),
    }
}

/// The player after all the events, in order.
pub open spec fn after_events(p: Player, events: Seq<Event>) -> Player
    decreases events.len(),
{
    if events.len() == 0 {
        p
    } else {
        after_event(after_events(p, events.drop_last()), events.last())
    }
}

/// The event `i` is the end of a run for the video at `url` that found `urls`, and
/// no video was started or stopped since.
pub open spec fn resolved_at(
    events: Seq<Event>,
    i: int,
    url: Seq<char>,
    urls: (Seq<char>, Option<Seq<char>>),
) -> bool {
    &&& 0 <= i < events.len()
    &&& events[i] == Event::Prefetched { asked: url, found: Some(urls) }
    &&& forall|j: int|
        i < j < events.len() ==> !(#[trigger] events[j] is Start) && !(events[j] is Stop)
}

/// Whatever happens, in whatever order, and however late a run ends: the direct
/// URLs that are held were found by a run for the current video, which ended
/// since that video was started.
pub proof fn law_urls_are_of_the_current_video(p: Player, events: Seq<Event>)
    requires
        p.direct_urls is None,
    ensures
        ({
            let q = after_events(p, events);
            q.direct_urls matches Some(urls) ==> exists|i: int|
                #[trigger] resolved_at(events, i, q.url, urls)
        }),
    decreases events.len(),
{
    if events.len() > 0 {
        let prior = events.drop_last();
        let q = after_events(p, prior);
        law_urls_are_of_the_current_video(p, prior);
        let r = after_events(p, events);
        if let Some(urls) = r.direct_urls {
            let last = events.len() - 1;
            if events.last() == (Event::Prefetched { asked: r.url, found: Some(urls) }) {
                assert(resolved_at(events, last, r.url, urls));
            } else {
                let i = choose|i: int| #[trigger] resolved_at(prior, i, q.url, urls);
                assert(resolved_at(prior, i, q.url, urls));
                assert forall|j: int| i < j < events.len() implies !(#[trigger] events[j] is Start)
                    && !(events[j] is Stop) by {
                    if j < last {
                        assert(prior[j] == events[j]);
                    }
                }
                assert(resolved_at(events, i, r.url, urls));
            }
        }
    }
}

/// The cells that are kept can hold a video in every state that a player gets
/// into.
pub proof fn law_always_well_formed(cache: Seq<char>, events: Seq<Event>)
    ensures
        well_formed(after_events(idle(cache), events)),
    decreases events.len(),
{
    if events.len() > 0 {
        law_always_well_formed(cache, events.drop_last());
    }
}

/// A file's path is the directory and the name, with one slash between them
/// whether the directory is written with a slash at its end or not. Without a
/// directory it is the name.
pub proof fn law_path_in(dir: Seq<char>, name: Seq<char>)
    ensures
        dir.len() == 0 ==> path_in(dir, name) == name,
        dir.len() > 0 ==> path_in(dir.push('/'), name) == dir.push('/') + name,
        dir.len() > 0 && dir.last() != '/' ==> path_in(dir, name) == path_in(dir.push('/'), name),
        dir.len() > 0 && dir.last() == '/' ==> path_in(dir, name) == dir + name,
{
    reveal_strlit("/");
    if dir.len() == 0 {
        assert(dir + name =~= name);
    }
    assert(dir + "/"@ =~= dir.push('/'));
}

/// A player begins without a video, and keeps its two files in its directory.
pub proof fn law_begins_without_a_video(cache: Seq<char>)
    ensures
        ({
            let p = idle(cache);
            &&& p.url.len() == 0 && !p.playing && !p.fullscreen
            &&& p.panel_hint is None && p.direct_urls is None
            &&& p.rect.width == 0 && p.rect.height == 0 && p.rect.x == 0 && p.rect.y == 0
            &&& p.ipc_path == path_in(cache, "mpv-embedded.sock"@)
            &&& p.log_path == path_in(cache, "mpv-embedded.log"@)
        }),
{
}

/// A start takes the URL as it is given, goes to panel mode, and knows no direct
/// URLs yet. The video stands on the cells of the thumbnail, one to the right and
/// one down, where the thumbnail has 5 by 3 cells or more, and in the terminal's
/// panel where it has not or is not known.
pub proof fn law_start(
    p: Player,
    url: Seq<char>,
    term: (u16, u16),
    hint: Option<Rect>,
)
    ensures
        ({
            let q = after_start(p, url, term, hint);
            &&& q.url == url && !q.fullscreen && !q.playing && q.direct_urls is None
            &&& q.ipc_path == p.ipc_path && q.log_path == p.log_path
            &&& match hint {
                Some(r) => if r.width >= 5 && r.height >= 3 {
                    &&& q.panel_hint == Some(q.rect)
                    &&& q.rect.x == r.x + 1 && q.rect.y == r.y + 1
                    &&& q.rect.width == r.width && q.rect.height == r.height
                } else {
                    &&& q.panel_hint is None
                    &&& q.rect == crate::geometry::panel_area(term.0 as int, term.1 as int)
                },
                None => {
                    &&& q.panel_hint is None
                    &&& q.rect == crate::geometry::panel_area(term.0 as int, term.1 as int)
                },
            }
        }),
{
}

/// `q` is `p` but for its mode, its place, and whether `mpv` runs.
pub open spec fn same_video(p: Player, q: Player) -> bool {
    &&& q.url == p.url && q.direct_urls == p.direct_urls && q.panel_hint == p.panel_hint
    &&& q.ipc_path == p.ipc_path && q.log_path == p.log_path
}

/// `r` is the panel of a video whose thumbnail has the cells `hint`.
pub open spec fn is_panel(
    r: crate::geometry::Area,
    hint: Option<crate::geometry::Area>,
    term: (u16, u16),
) -> bool {
    if hint matches Some(a) && a.width > 0 && a.height > 0 {
        r == hint->0
    } else {
        r == crate::geometry::panel_area(term.0 as int, term.1 as int)
    }
}

/// A toggle changes the mode of a video that plays, and with it its place; of the
/// video it changes nothing. Where none plays it does nothing.
pub proof fn law_toggle(p: Player, term: (u16, u16), window: Option<WindowSize>)
    ensures
        ({
            let q = after_toggle(p, term, window);
            &&& !p.playing ==> q == p
            &&& p.playing ==> same_video(p, q) && !q.playing && q.fullscreen != p.fullscreen
            &&& p.playing && p.fullscreen ==> is_panel(q.rect, p.panel_hint, term)
            &&& p.playing && !p.fullscreen ==> q.rect == crate::geometry::fullscreen_area(
                term.0 as int,
                term.1 as int,
                crate::geometry::cell_size(window),
            )
        }),
{
}

/// A resize changes the place of a video that plays, to that of its mode in the
/// terminal's new size, and nothing else. Where none plays it does nothing.
pub proof fn law_resize(p: Player, term: (u16, u16), window: Option<WindowSize>)
    ensures
        ({
            let q = after_resize(p, term, window);
            &&& !p.playing ==> q == p
            &&& p.playing ==> same_video(p, q) && !q.playing && q.fullscreen == p.fullscreen
            &&& p.playing && !p.fullscreen ==> is_panel(q.rect, p.panel_hint, term)
            &&& p.playing && p.fullscreen ==> q.rect == crate::geometry::fullscreen_area(
                term.0 as int,
                term.1 as int,
                crate::geometry::cell_size(window),
            )
        }),
{
}

/// A stop ends the video and keeps what is not of it; an `mpv` that was started
/// changes nothing but that it runs.
pub proof fn law_stop_and_spawn_keep_the_rest(p: Player)
    ensures
        ({
            let q = after_stop(p);
            &&& !q.playing && q.panel_hint is None && q.direct_urls is None
            &&& q.url == p.url && q.fullscreen == p.fullscreen && q.rect == p.rect
            &&& q.ipc_path == p.ipc_path && q.log_path == p.log_path
        }),
        ({
            let q = running(p);
            &&& q.playing && same_video(p, q)
            &&& q.fullscreen == p.fullscreen && q.rect == p.rect
        }),
{
}

/// A run for the current video that found URLs fills them in, over what an earlier
/// run found, and changes nothing else. One that found none changes nothing.
pub proof fn law_run_for_the_current_video_counts(p: Player, urls: (Seq<char>, Option<Seq<char>>))
    ensures
        ({
            let q = after_prefetch(p, p.url, Some(urls));
            &&& q.direct_urls == Some(urls)
            &&& q.url == p.url && q.fullscreen == p.fullscreen && q.rect == p.rect
            &&& q.playing == p.playing && q.panel_hint == p.panel_hint
            &&& q.ipc_path == p.ipc_path && q.log_path == p.log_path
        }),
        after_prefetch(p, p.url, None) == p,
{
}

/// A terminal that does not tell its size is taken to have 80 columns and 24 rows;
/// one that does is believed.
pub proof fn law_known_size(size: (u16, u16))
    ensures
        known_size(Some(size)) == size,
        known_size(None) == (80u16, 24u16),
{
}

/// What `mpv` is told depends on the place, the mode, the socket and the direct
/// URLs of the video alone, and of the direct URLs not on that of the video, which
/// is what it opens.
pub proof fn law_options_depend_on_the_place(
    p: Player,
    q: Player,
    term: (u16, u16),
    cell: (int, int),
    pos: Option<Seq<char>>,
)
    requires
        p.rect == q.rect,
        p.fullscreen == q.fullscreen,
        p.ipc_path == q.ipc_path,
        p.direct_urls is Some <==> q.direct_urls is Some,
        p.direct_urls is Some ==> (p.direct_urls->0).1 == (q.direct_urls->0).1,
    ensures
        options(p, term, cell, pos) == options(q, term, cell, pos),
{
}

proof fn lemma_joined_contains(
    a: Seq<Seq<char>>,
    b: Seq<Seq<char>>,
    c: Seq<Seq<char>>,
    d: Seq<Seq<char>>,
    e: Seq<char>,
)
    ensures
        (a + b + c + d).contains(e) <==> a.contains(e) || b.contains(e) || c.contains(e)
            || d.contains(e),
{
    let all = a + b + c + d;
    if a.contains(e) {
        let i = choose|i: int| 0 <= i < a.len() && a[i] == e;
        assert(all[i] == e);
    }
    if b.contains(e) {
        let i = choose|i: int| 0 <= i < b.len() && b[i] == e;
        assert(all[a.len() + i] == e);
    }
    if c.contains(e) {
        let i = choose|i: int| 0 <= i < c.len() && c[i] == e;
        assert(all[a.len() + b.len() + i] == e);
    }
    if d.contains(e) {
        let i = choose|i: int| 0 <= i < d.len() && d[i] == e;
        assert(all[a.len() + b.len() + c.len() + i] == e);
    }
    if all.contains(e) {
        let i = choose|i: int| 0 <= i < all.len() && all[i] == e;
        if i < a.len() {
            assert(a[i] == e);
        } else if i < a.len() + b.len() {
            assert(b[i - a.len()] == e);
        } else if i < a.len() + b.len() + c.len() {
            assert(c[i - a.len() - b.len()] == e);
        } else {
            assert(d[i - a.len() - b.len() - c.len()] == e);
        }
    }
}

/// `e` says where and how large the picture is.
pub open spec fn tells_the_place(
    e: Seq<char>,
    r: crate::geometry::Area,
    term: (u16, u16),
    cell: (int, int),
) -> bool {
    ||| e == "--vo-kitty-left="@ + crate::text::decimal(r.x as nat)
    ||| e == "--vo-kitty-top="@ + crate::text::decimal(r.y as nat)
    ||| e == "--vo-kitty-cols="@ + crate::text::decimal(term.0 as nat)
    ||| e == "--vo-kitty-rows="@ + crate::text::decimal(term.1 as nat)
    ||| e == "--vo-kitty-width="@ + crate::text::decimal((r.width * cell.0) as nat)
    ||| e == "--vo-kitty-height="@ + crate::text::decimal((r.height * cell.1) as nat)
}

/// `e` is one of the options that never change.
pub open spec fn is_fixed(e: Seq<char>) -> bool {
    ||| e == "--vo=kitty"@
    ||| e == "--vo-kitty-alt-screen=no"@
    ||| e == "--vo-kitty-config-clear=no"@
    ||| e == "--vo-kitty-use-shm=no"@
    ||| e == "--profile=sw-fast"@
    ||| e == "--msg-level=all=error"@
    ||| e == "--no-terminal"@
    ||| e == "--keep-open=no"@
}

/// `e` is one of the options for streams that are opened directly.
pub open spec fn is_for_streams(e: Seq<char>, audio: Option<Seq<char>>) -> bool {
    ||| e == "--no-ytdl"@
    ||| e == "--demuxer-lavf-o-add=probesize=131072,analyzeduration=200000"@
    ||| e == "--hr-seek=no"@
    ||| audio matches Some(a) && e == "--audio-file="@ + a
}

/// `e` is one of the options for fullscreen.
pub open spec fn is_for_fullscreen(e: Seq<char>) -> bool {
    ||| e == "--background=color"@
    ||| e == "--background-color=#FF000000"@
    ||| e == "--keepaspect=yes"@
    ||| e == "--video-align-x=0"@
    ||| e == "--video-align-y=0"@
}

proof fn lemma_screen(p: Player, term: (u16, u16), cell: (int, int), e: Seq<char>)
    ensures
        screen_arguments(p, term, cell).contains(e) <==> is_fixed(e) || tells_the_place(
            e,
            p.rect,
            term,
            cell,
        ) || e == "--input-ipc-server="@ + p.ipc_path,
{
    let s = screen_arguments(p, term, cell);
    assert(s.len() == 15);
    assert(s.contains(s[0]) && s.contains(s[1]) && s.contains(s[2]) && s.contains(s[3]));
    assert(s.contains(s[4]) && s.contains(s[5]) && s.contains(s[6]) && s.contains(s[7]));
    assert(s.contains(s[8]) && s.contains(s[9]) && s.contains(s[10]) && s.contains(s[11]));
    assert(s.contains(s[12]) && s.contains(s[13]) && s.contains(s[14]));
}

proof fn lemma_source(p: Player, e: Seq<char>)
    ensures
        source_arguments(p.direct_urls).contains(e) <==> match p.direct_urls {
            Some((_, audio)) => is_for_streams(e, audio),
            None => e == "--ytdl-format=bestvideo[height<=480]+bestaudio/best[height<=480]"@,
        },
{
    let s = source_arguments(p.direct_urls);
    assert(s.contains(s[0]));
    if p.direct_urls is Some {
        assert(s.contains(s[1]) && s.contains(s[2]));
        if (p.direct_urls->0).1 is Some {
            assert(s.contains(s[3]));
        }
    }
}

proof fn lemma_mode(fullscreen: bool, e: Seq<char>)
    ensures
        mode_arguments(fullscreen).contains(e) <==> fullscreen && is_for_fullscreen(e),
{
    let s = mode_arguments(fullscreen);
    if fullscreen {
        assert(s.contains(s[0]) && s.contains(s[1]) && s.contains(s[2]));
        assert(s.contains(s[3]) && s.contains(s[4]));
    }
}

proof fn lemma_position(pos: Option<Seq<char>>, e: Seq<char>)
    ensures
        position_arguments(pos).contains(e) <==> (pos matches Some(at) && e == "--start="@ + at),
{
    let s = position_arguments(pos);
    if pos is Some {
        assert(s.contains(s[0]));
    }
}

/// `mpv` is told all of this and nothing more, once each: how it draws, where the
/// picture stands and its size in pixels, the socket, how it gets at the streams,
/// the black ground of fullscreen, and where playback begins.
pub proof fn law_options_are_these(
    p: Player,
    term: (u16, u16),
    cell: (int, int),
    pos: Option<Seq<char>>,
    e: Seq<char>,
)
    ensures
        options(p, term, cell, pos).contains(e) <==> {
            ||| is_fixed(e)
            ||| tells_the_place(e, p.rect, term, cell)
            ||| e == "--input-ipc-server="@ + p.ipc_path
            ||| p.direct_urls matches Some((_, audio)) && is_for_streams(e, audio)
            ||| p.direct_urls is None && e
                == "--ytdl-format=bestvideo[height<=480]+bestaudio/best[height<=480]"@
            ||| p.fullscreen && is_for_fullscreen(e)
            ||| pos matches Some(at) && e == "--start="@ + at
        },
        options(p, term, cell, pos).len() == 15 + (match p.direct_urls {
            Some((_, Some(_))) => 4int,
            Some((_, None)) => 3,
            None => 1,
        }) + (if p.fullscreen {
            5int
        } else {
            0
        }) + (if pos is Some {
            1int
        } else {
            0
        }),
{
    lemma_screen(p, term, cell, e);
    lemma_source(p, e);
    lemma_mode(p.fullscreen, e);
    lemma_position(pos, e);
    lemma_joined_contains(
        screen_arguments(p, term, cell),
        source_arguments(p.direct_urls),
        mode_arguments(p.fullscreen),
        position_arguments(pos),
        e,
    );
}

/// Streams that are opened directly are opened in the same way whether the audio
/// is one of its own or not: not resolved, hardly probed, and without exact
/// seeking. A separate audio stream is one more option, and nothing else changes.
pub proof fn law_audio_is_one_more_option(
    p: Player,
    term: (u16, u16),
    cell: (int, int),
    video: Seq<char>,
    audio: Seq<char>,
    pos: Option<Seq<char>>,
)
    ensures
        ({
            let muxed = options(
                Player { direct_urls: Some((video, None)), ..p },
                term,
                cell,
                pos,
            );
            let split = options(
                Player { direct_urls: Some((video, Some(audio))), ..p },
                term,
                cell,
                pos,
            );
            let probing = "--demuxer-lavf-o-add=probesize=131072,analyzeduration=200000"@;
            &&& muxed.contains("--no-ytdl"@) && split.contains("--no-ytdl"@)
            &&& muxed.contains(probing) && split.contains(probing)
            &&& muxed.contains("--hr-seek=no"@) && split.contains("--hr-seek=no"@)
            &&& exists|k: int|
                0 <= k <= muxed.len() && split == #[trigger] muxed.insert(
                    k,
                    "--audio-file="@ + audio,
                )
        }),
{
    let a = Player { direct_urls: Some((video, None)), ..p };
    let b = Player { direct_urls: Some((video, Some(audio))), ..p };
    let muxed = options(a, term, cell, pos);
    let split = options(b, term, cell, pos);
    let probing = "--demuxer-lavf-o-add=probesize=131072,analyzeduration=200000"@;
    law_options_are_these(a, term, cell, pos, "--no-ytdl"@);
    law_options_are_these(b, term, cell, pos, "--no-ytdl"@);
    law_options_are_these(a, term, cell, pos, probing);
    law_options_are_these(b, term, cell, pos, probing);
    law_options_are_these(a, term, cell, pos, "--hr-seek=no"@);
    law_options_are_these(b, term, cell, pos, "--hr-seek=no"@);
    assert(split =~= muxed.insert(16, "--audio-file="@ + audio));
}

/// In fullscreen `mpv` is told what it is told of the same place in panel mode,
/// and five options more, one after the other.
pub proof fn law_fullscreen_is_five_more_options(
    p: Player,
    term: (u16, u16),
    cell: (int, int),
    pos: Option<Seq<char>>,
)
    ensures
        ({
            let panel = options(Player { fullscreen: false, ..p }, term, cell, pos);
            let full = options(Player { fullscreen: true, ..p }, term, cell, pos);
            exists|k: int|
                0 <= k <= panel.len() && full.len() == panel.len() + 5 && panel == #[trigger] full.take(
                    k,
                ) + full.skip(k + 5)
        }),
{
    let panel = options(Player { fullscreen: false, ..p }, term, cell, pos);
    let full = options(Player { fullscreen: true, ..p }, term, cell, pos);
    let k = 15 + source_arguments(p.direct_urls).len() as int;
    assert(panel =~= full.take(k) + full.skip(k + 5));
}

proof fn lemma_not_an_option(
    p: Player,
    term: (u16, u16),
    cell: (int, int),
    pos: Option<Seq<char>>,
    key: Seq<char>,
)
    requires
        key.len() > 5,
        ({
            ||| key[2] == 'n' && key[5] != 't' && key[5] != 'y'
            ||| key[2] == 'p' && key[3] != 'r'
        }),
    ensures
        !options(p, term, cell, pos).contains(key),
{
    let o = options(p, term, cell, pos);
    reveal_strlit("--vo=kitty");
    reveal_strlit("--vo-kitty-left=");
    reveal_strlit("--vo-kitty-top=");
    reveal_strlit("--vo-kitty-cols=");
    reveal_strlit("--vo-kitty-rows=");
    reveal_strlit("--vo-kitty-width=");
    reveal_strlit("--vo-kitty-height=");
    reveal_strlit("--vo-kitty-alt-screen=no");
    reveal_strlit("--vo-kitty-config-clear=no");
    reveal_strlit("--vo-kitty-use-shm=no");
    reveal_strlit("--profile=sw-fast");
    reveal_strlit("--msg-level=all=error");
    reveal_strlit("--no-terminal");
    reveal_strlit("--input-ipc-server=");
    reveal_strlit("--keep-open=no");
    reveal_strlit("--no-ytdl");
    reveal_strlit("--audio-file=");
    reveal_strlit("--demuxer-lavf-o-add=probesize=131072,analyzeduration=200000");
    reveal_strlit("--hr-seek=no");
    reveal_strlit("--ytdl-format=bestvideo[height<=480]+bestaudio/best[height<=480]");
    reveal_strlit("--background=color");
    reveal_strlit("--background-color=#FF000000");
    reveal_strlit("--keepaspect=yes");
    reveal_strlit("--video-align-x=0");
    reveal_strlit("--video-align-y=0");
    reveal_strlit("--start=");
    assert forall|i: int| 0 <= i < o.len() implies o[i] != key by {
        if i == 12 || (i == 15 && p.direct_urls is Some) {
            lemma_differ(o[i], key, if key[2] == 'n' {
                5
            } else {
                2
            });
        } else if i == 10 {
            lemma_differ(o[i], key, if key[2] == 'p' {
                3
            } else {
                2
            });
        } else {
            lemma_differ(o[i], key, 2);
        }
    }
}

/// Sound and picture are never switched off, and playback never begins paused.
pub proof fn law_nothing_is_switched_off(
    p: Player,
    term: (u16, u16),
    cell: (int, int),
    pos: Option<Seq<char>>,
)
    ensures
        !options(p, term, cell, pos).contains("--no-audio"@),
        !options(p, term, cell, pos).contains("--no-video"@),
        !options(p, term, cell, pos).contains("--pause"@),
{
    reveal_strlit("--no-audio");
    reveal_strlit("--no-video");
    reveal_strlit("--pause");
    lemma_not_an_option(p, term, cell, pos, "--no-audio"@);
    lemma_not_an_option(p, term, cell, pos, "--no-video"@);
    lemma_not_an_option(p, term, cell, pos, "--pause"@);
}

/// A player is seen as it is held.
pub proof fn law_player_is_seen(v: EmbeddedVideo, pos: &str)
    ensures
        v@.url == v.url@ && v@.fullscreen == v.fullscreen && v@.playing == v.playing,
        v@.rect == v.rect@ && v@.ipc_path == v.ipc_path@ && v@.log_path == v.log_path@,
        v@.panel_hint == match v.panel_hint {
            Some(r) => Some(r@),
            None => None,
        },
        v@.direct_urls == match v.direct_urls {
            Some(urls) => Some(urls@),
            None => None,
        },
        str_in(Some(pos)) == Some(pos@),
        str_in(None) is None,
{
}

/// Whether the place in fullscreen can be computed depends on the terminal and
/// the size of its cells.
pub proof fn law_terminal_in_range(term: (u16, u16), window: Option<WindowSize>)
    requires
        term.0 >= 1,
        term.1 >= 1,
    ensures
        ({
            let cell = crate::geometry::cell_size(window);
            terminal_in_range(term, window) <==> 9 * (term.0 * cell.0) <= 0xffff_ffff && 16 * (
            term.1 * cell.1) <= 0xffff_ffff
        }),
{
    let cell = crate::geometry::cell_size(window);
    crate::geometry::law_cell_size(window);
    crate::geometry::law_canvas_in_range(term.0 as int, term.1 as int, cell);
}

/// A start resolves the URL once, before `mpv` runs, and begins at the beginning.
/// A respawn goes on where the `mpv` was that it ends, and resolves nothing. What
/// an `mpv` that is ended has drawn is removed at once, before anything else.
pub proof fn law_actions(playing: bool)
    ensures
        ({
            let a = start_actions(playing);
            let n = a.len() as int;
            &&& n >= 2 && a[n - 1] == Action::Spawn { resume: false } && a[n - 2] == Action::Prefetch
            &&& playing ==> a.take(n - 2) == stop_actions()
            &&& !playing ==> n == 2
        }),
        ({
            let a = respawn_actions();
            &&& a.len() == 3 && a[0] == Action::Kill && a[1] == Action::ClearGraphics
            &&& a[2] == Action::Spawn { resume: true }
        }),
        ({
            let a = stop_actions();
            a.len() == 2 && a[0] == Action::Kill && a[1] == Action::ClearGraphics
        }),
{
    let a = start_actions(playing);
    if playing {
        assert(a.take(a.len() - 2) =~= stop_actions());
    }
}

} // verus!
