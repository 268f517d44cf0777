//! The stream URLs that `yt-dlp` resolves for a video.
//!
//! With them `mpv` opens the streams directly and need not resolve the video
//! itself.
use crate::text::{chars_of, text_of, trimmed};
use vstd::prelude::*;
use vstd::utf8::*;

verus! {

/// The direct URLs of a video.
#[derive(Debug)]
pub struct DirectUrls {
    /// The video stream, or the only stream where audio and video are muxed.
    pub video: String,
    /// The audio stream, where it is a separate one.
    pub audio: Option<String>,
}

impl View for DirectUrls {
    type V = (Seq<char>, Option<Seq<char>>);

    /// The video URL and the audio URL.
    open spec fn view(&self) -> (Seq<char>, Option<Seq<char>>) {
        (self.video@, crate::text::text_in(self.audio))
    }
}

/// The URLs inside an optional pair.
pub open spec fn urls_in(urls: Option<DirectUrls>) -> Option<(Seq<char>, Option<Seq<char>>)> {
    match urls {
        Some(u) => Some(u@),
        None => None,
    }
}

/// One line of output: nothing where it is blank, else its trimmed text.
pub open spec fn entry(line: Seq<char>) -> Seq<Seq<char>> {
    let t = crate::text::trim(line);
    if t.len() == 0 {
        Seq::empty()
    } else {
        seq![t]
    }
}

/// The trimmed lines of `text` that are not blank, in order.
pub open spec fn entries(text: Seq<char>) -> Seq<Seq<char>>
    decreases text.len(),
{
    match text.index_of_first('\n') {
        Some(k) => if 0 <= k < text.len() {
            entry(text.take(k)) + entries(text.skip(k + 1))
        } else {
            Seq::empty()
        },
        None => entry(text),
    }
}

/// The URLs that the entries stand for: the first is the video, the second, if
/// there is one, the audio. Without entries there are none.
pub open spec fn urls_of(entries: Seq<Seq<char>>) -> Option<(Seq<char>, Option<Seq<char>>)> {
    if entries.len() == 0 {
        None
    } else if entries.len() == 1 {
        Some((entries[0], None))
    } else {
        Some((entries[0], Some(entries[1])))
    }
}

/// Appends the entry of the line `v[from..to]`.
fn push_entry(list: &mut Vec<String>, v: &Vec<char>, from: usize, to: usize)
    requires
        from <= to <= v@.len(),
    ensures
        crate::text::texts(final(list)@) == crate::text::texts(old(list)@) + entry(
            v@.subrange(from as int, to as int),
        ),
{
    let ghost before = list@;
    let t = trimmed(v, from, to);
    if t.as_str().is_empty() {
        assert(crate::text::texts(list@) =~= crate::text::texts(before) + Seq::<Seq<char>>::empty());
    } else {
        list.push(t);
        assert(crate::text::texts(list@) =~= crate::text::texts(before) + seq![t@]);
    }
}

/// The trimmed lines of `text` that are not blank.
pub fn entries_of(text: &str) -> (list: Vec<String>)
    ensures
        crate::text::texts(list@) == entries(text@),
{
    let v = chars_of(text);
    let n = v.len();
    let mut list: Vec<String> = Vec::new();
    let mut start: usize = 0;
    let mut i: usize = 0;
    proof {
        assert(v@.skip(0) =~= v@);
        assert(crate::text::texts(list@) + entries(v@) =~= entries(v@));
    }
    while i < n
        invariant
            n == v@.len(),
            start <= i <= n,
            forall|j: int| start <= j < i ==> v@[j] != '\n',
            entries(v@) == crate::text::texts(list@) + entries(v@.skip(start as int)),
        decreases n - i,
    {
        if v[i] == '\n' {
            let ghost before = list@;
            let ghost s = v@.skip(start as int);
            push_entry(&mut list, &v, start, i);
            proof {
                let k = i - start;
                s.index_of_first_ensures('\n');
                assert(s[k] == '\n');
                assert(s.contains('\n'));
                assert(s.index_of_first('\n') == Some(k));
                assert(s.take(k) =~= v@.subrange(start as int, i as int));
                assert(s.skip(k + 1) =~= v@.skip(i + 1));
                let e = entry(s.take(k));
                let rest = entries(v@.skip(i + 1));
                let done = crate::text::texts(before);
                assert(done + (e + rest) =~= (done + e) + rest);
            }
            start = i + 1;
        }
        i += 1;
    }
    proof {
        let s = v@.skip(start as int);
        s.index_of_first_ensures('\n');
        assert(!s.contains('\n'));
        assert(s =~= v@.subrange(start as int, n as int));
    }
    push_entry(&mut list, &v, start, n);
    list
}

/// The URLs in the output of `yt-dlp -g`.
pub fn direct_urls(text: &str) -> (urls: Option<DirectUrls>)
    ensures
        urls_in(urls) == urls_of(entries(text@)),
{
    let mut list = entries_of(text);
    let ghost all = entries(text@);
    let n = list.len();
    assert(all.len() == n);
    if n == 0 {
        return None;
    }
    let audio = if n > 1 {
        assert(all[1] == list@[1]@);
        Some(list.swap_remove(1))
    } else {
        None
    };
    assert(all[0] == list@[0]@);
    Some(DirectUrls { video: list.swap_remove(0), audio })
}

/// The URLs that a `yt-dlp` run found. One that failed found none.
pub open spec fn found(succeeded: bool, stdout: Seq<u8>) -> Option<(Seq<char>, Option<Seq<char>>)> {
    if succeeded {
        urls_of(entries(crate::text::utf8_lossy(stdout)))
    } else {
        None
    }
}

/// Takes the end of a `yt-dlp` run. A run that succeeded and printed a URL fills
/// the slot; any other run leaves it as it is.
pub fn prefetched(slot: &mut Option<DirectUrls>, succeeded: bool, stdout: &[u8])
    ensures
        urls_in(*final(slot)) == match found(succeeded, stdout@) {
            Some(urls) => Some(urls),
            None => urls_in(*old(slot)),
        },
        succeeded && valid_utf8(stdout@) ==> crate::text::utf8_lossy(stdout@) == decode_utf8(
            stdout@,
        ),
{
    if succeeded {
        let text = text_of(stdout);
        match direct_urls(text.as_str()) {
            Some(urls) => {
                *slot = Some(urls);
            },
            None => {},
        }
    }
}

/// Takes the end of a `yt-dlp` run for the video at `asked`, where `current` is
/// the video that the slot is for. A run for another video leaves the slot as it
/// is, so that one that ends late does not fill the slot of a newer video.
pub fn prefetched_for(
    slot: &mut Option<DirectUrls>,
    asked: &str,
    current: &str,
    succeeded: bool,
    stdout: &[u8],
)
    ensures
        asked@ != current@ ==> urls_in(*final(slot)) == urls_in(*old(slot)),
        asked@ == current@ ==> urls_in(*final(slot)) == match found(succeeded, stdout@) {
            Some(urls) => Some(urls),
            None => urls_in(*old(slot)),
        },
        asked@ == current@ && succeeded && valid_utf8(stdout@) ==> crate::text::utf8_lossy(stdout@)
            == decode_utf8(stdout@),
{
    if asked.to_owned() == current.to_owned() {
        prefetched(slot, succeeded, stdout);
    }
}

/// The arguments with which `yt-dlp` prints the direct URLs of `url`: separate
/// streams, so that the audio is the best there is, with the video at 480 lines
/// at most. The URL stands behind `--`, so it is never read as an option.
pub open spec fn prefetch_arguments(url: Seq<char>) -> Seq<Seq<char>> {
    seq![
        "-g"@,
        "-f"@,
        "bestvideo[height<=480]+bestaudio/best"@,
        "--no-warnings"@,
        "--"@,
        url,
    ]
}

/// The arguments with which `yt-dlp` prints the direct URLs of `url`.
pub fn prefetch_args(url: &str) -> (args: Vec<String>)
    ensures
        crate::text::texts(args@) == prefetch_arguments(url@),
{
    let mut args: Vec<String> = Vec::new();
    args.push("-g".to_owned());
    args.push("-f".to_owned());
    args.push("bestvideo[height<=480]+bestaudio/best".to_owned());
    args.push("--no-warnings".to_owned());
    args.push("--".to_owned());
    args.push(url.to_owned());
    assert(crate::text::texts(args@) =~= prefetch_arguments(url@));
    args
}

/// `url` stands on a line of its own: it is not empty, holds no line feed, and
/// neither begins nor ends with white space.
pub open spec fn is_line(url: Seq<char>) -> bool {
    &&& url.len() > 0
    &&& !url.contains('\n')
    &&& !crate::text::white_space(url[0])
    &&& !crate::text::white_space(url.last())
}

proof fn lemma_entries_step(line: Seq<char>, rest: Seq<char>)
    requires
        !line.contains('\n'),
    ensures
        entries(line + seq!['\n'] + rest) == entry(line) + entries(rest),
{
    let s = line + seq!['\n'] + rest;
    let k = line.len() as int;
    s.index_of_first_ensures('\n');
    assert(s[k] == '\n');
    assert(s.contains('\n'));
    assert forall|i: int| 0 <= i < k implies s[i] != '\n' by {
        assert(line.contains(line[i]));
    }
    assert(s.index_of_first('\n') == Some(k));
    assert(s.take(k) =~= line);
    assert(s.skip(k + 1) =~= rest);
}

proof fn lemma_entries_empty()
    ensures
        entries(Seq::empty()) == Seq::<Seq<char>>::empty(),
{
    let s = Seq::<char>::empty();
    s.index_of_first_ensures('\n');
    assert(!s.contains('\n'));
}

/// Output with two URLs, each on a line of its own, gives the first as the video
/// and the second as the audio.
pub proof fn law_two_lines(video: Seq<char>, audio: Seq<char>)
    requires
        is_line(video),
        is_line(audio),
    ensures
        urls_of(entries(video + seq!['\n'] + audio + seq!['\n'])) == Some((video, Some(audio))),
{
    let end = Seq::<char>::empty();
    lemma_entries_step(audio, end);
    lemma_entries_step(video, audio + seq!['\n'] + end);
    lemma_entries_empty();
    assert(video + seq!['\n'] + (audio + seq!['\n'] + end) =~= video + seq!['\n'] + audio + seq![
        '\n',
    ]);
}

/// Output with one URL gives it as the video, and no audio.
pub proof fn law_one_line(video: Seq<char>)
    requires
        is_line(video),
    ensures
        urls_of(entries(video + seq!['\n'])) == Some((video, None::<Seq<char>>)),
{
    let end = Seq::<char>::empty();
    lemma_entries_step(video, end);
    lemma_entries_empty();
    assert(video + seq!['\n'] + end =~= video + seq!['\n']);
}

/// Every URL that is taken from output is trimmed, not empty, and holds no line
/// feed.
pub proof fn law_entries_are_lines(text: Seq<char>)
    ensures
        forall|i: int| 0 <= i < entries(text).len() ==> is_line(#[trigger] entries(text)[i]),
    decreases text.len(),
{
    text.index_of_first_ensures('\n');
    match text.index_of_first('\n') {
        Some(k) => {
            law_entries_are_lines(text.skip(k + 1));
            lemma_trim_is_line(text.take(k));
            let e = entry(text.take(k));
            let rest = entries(text.skip(k + 1));
            assert forall|i: int| 0 <= i < entries(text).len() implies is_line(
                #[trigger] entries(text)[i],
            ) by {
                if i < e.len() {
                    assert(entries(text)[i] == e[i]);
                } else {
                    assert(entries(text)[i] == rest[i - e.len()]);
                }
            }
        },
        None => {
            lemma_trim_is_line(text);
        },
    }
}

proof fn lemma_trim_start(s: Seq<char>)
    requires
        !s.contains('\n'),
    ensures
        ({
            let t = crate::text::trim_start(s);
            &&& t.len() > 0 ==> !crate::text::white_space(t[0])
            &&& !t.contains('\n')
        }),
    decreases s.len(),
{
    if s.len() > 0 && crate::text::white_space(s[0]) {
        assert forall|i: int| 0 <= i < s.skip(1).len() implies s.skip(1)[i] != '\n' by {
            assert(s.contains(s[i + 1]));
        }
        lemma_trim_start(s.skip(1));
    }
}

proof fn lemma_trim_end(s: Seq<char>)
    requires
        !s.contains('\n'),
        s.len() > 0 ==> !crate::text::white_space(s[0]),
    ensures
        ({
            let t = crate::text::trim_end(s);
            &&& t.len() > 0 ==> !crate::text::white_space(t[0])
            &&& t.len() > 0 ==> !crate::text::white_space(t.last())
            &&& !t.contains('\n')
        }),
    decreases s.len(),
{
    if s.len() > 0 && crate::text::white_space(s.last()) {
        assert forall|i: int| 0 <= i < s.drop_last().len() implies s.drop_last()[i] != '\n' by {
            assert(s.contains(s[i]));
        }
        lemma_trim_end(s.drop_last());
    }
}

proof fn lemma_trim_is_line(s: Seq<char>)
    requires
        !s.contains('\n'),
    ensures
        forall|i: int| 0 <= i < entry(s).len() ==> is_line(#[trigger] entry(s)[i]),
{
    lemma_trim_start(s);
    lemma_trim_end(crate::text::trim_start(s));
}

/// A line with a URL gives the URL, whatever white space stands around it, and the
/// lines behind it give what they give alone.
pub proof fn law_line_gives_its_url(
    left: Seq<char>,
    url: Seq<char>,
    right: Seq<char>,
    rest: Seq<char>,
)
    requires
        crate::text::blank(left),
        crate::text::blank(right),
        !left.contains('\n'),
        !right.contains('\n'),
        is_line(url),
    ensures
        entries(left + url + right) == seq![url],
        entries(left + url + right + seq!['\n'] + rest) == seq![url] + entries(rest),
{
    let line = left + url + right;
    lemma_no_feed(left, url, right);
    crate::text::law_trim_takes_white_space(left, url, right);
    lemma_entries_step(line, rest);
    line.index_of_first_ensures('\n');
}

/// A blank line gives nothing, and the lines behind it give what they give alone.
pub proof fn law_blank_line_gives_nothing(line: Seq<char>, rest: Seq<char>)
    requires
        crate::text::blank(line),
        !line.contains('\n'),
    ensures
        entries(line) == Seq::<Seq<char>>::empty(),
        entries(line + seq!['\n'] + rest) == entries(rest),
{
    let none = Seq::<char>::empty();
    assert(line + none + none =~= line);
    crate::text::law_trim_takes_white_space(line, none, none);
    lemma_entries_step(line, rest);
    line.index_of_first_ensures('\n');
    assert(Seq::<Seq<char>>::empty() + entries(rest) =~= entries(rest));
}

proof fn lemma_no_feed(a: Seq<char>, b: Seq<char>, c: Seq<char>)
    requires
        !a.contains('\n'),
        !b.contains('\n'),
        !c.contains('\n'),
    ensures
        !(a + b + c).contains('\n'),
{
    let all = a + b + c;
    assert forall|i: int| 0 <= i < all.len() implies all[i] != '\n' by {
        if i < a.len() {
            assert(a.contains(a[i]));
        } else if i < a.len() + b.len() {
            assert(b.contains(b[i - a.len()]));
        } else {
            assert(c.contains(c[i - a.len() - b.len()]));
        }
    }
}

/// The first entry is the video, the second the audio, and further ones do not
/// count. Where there is none, there are no URLs.
pub proof fn law_first_two_entries_count(list: Seq<Seq<char>>, more: Seq<Seq<char>>)
    ensures
        urls_of(list) is Some <==> list.len() > 0,
        urls_of(list) matches Some(urls) ==> urls.0 == list[0] && (urls.1 is Some <==> list.len()
            > 1),
        urls_of(list) matches Some((_, Some(audio))) ==> audio == list[1],
        list.len() >= 2 ==> urls_of(list + more) == urls_of(list),
{
}

/// A run that failed found nothing. One that succeeded found what is in the text
/// that it printed.
pub proof fn law_only_success_counts(stdout: Seq<u8>)
    ensures
        found(false, stdout) is None,
        found(true, stdout) == urls_of(entries(crate::text::utf8_lossy(stdout))),
{
}

/// The URL is the last of the arguments, behind `--`, and the others are the same
/// for every URL.
pub proof fn law_url_is_the_last_argument(url: Seq<char>, other: Seq<char>)
    ensures
        prefetch_arguments(url).last() == url,
        prefetch_arguments(url).len() >= 2,
        prefetch_arguments(url)[prefetch_arguments(url).len() - 2] == seq!['-', '-'],
        prefetch_arguments(url).drop_last() == prefetch_arguments(other).drop_last(),
{
    reveal_strlit("--");
    assert("--"@ =~= seq!['-', '-']);
    assert(prefetch_arguments(url).drop_last() =~= prefetch_arguments(other).drop_last());
}

/// Direct URLs are seen as they are held.
pub proof fn law_urls_in(urls: DirectUrls)
    ensures
        urls_in(Some(urls)) == Some((urls.video@, crate::text::text_in(urls.audio))),
        urls_in(None) is None,
{
}

} // verus!
