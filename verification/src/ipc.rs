//! Requests to a running `mpv`, and its replies.
//!
//! A request is a JSON object on a line of its own, and so is a reply.
use crate::ascii::LF;
use crate::text::{chars_of, joined, skip_white, trimmed};
use vstd::prelude::*;
use vstd::utf8::*;

verus! {

/// How long a reply is waited for, in milliseconds.
pub const REPLY_TIMEOUT_MS: u64 = 200;

/// How long the reader sleeps before it tries again, in milliseconds.
pub const RETRY_DELAY_MS: u64 = 10;

/// What stands for `c` inside a JSON string.
pub open spec fn escaped_char(c: char) -> Seq<char> {
    if c == '\\' {
        seq!['\\', '\\']
    } else if c == '"' {
        seq!['\\', '"']
    } else {
        seq![c]
    }
}

/// What stands for `s` inside a JSON string. Control characters are not escaped.
pub open spec fn escaped(s: Seq<char>) -> Seq<char>
    decreases s.len(),
{
    if s.len() == 0 {
        Seq::empty()
    } else {
        escaped_char(s[0]) + escaped(s.skip(1))
    }
}

/// What a JSON string with the content `s` says, of the escapes that
/// [`escaped`] uses.
pub open spec fn unescaped(s: Seq<char>) -> Seq<char>
    decreases s.len(),
{
    if s.len() == 0 {
        Seq::empty()
    } else if s[0] == '\\' && s.len() >= 2 {
        seq![s[1]] + unescaped(s.skip(2))
    } else {
        seq![s[0]] + unescaped(s.skip(1))
    }
}

/// Where a JSON string ends whose content begins with `s`: at the first quote
/// that no backslash stands before.
pub open spec fn string_end(s: Seq<char>) -> Option<int>
    decreases s.len(),
{
    if s.len() == 0 {
        None
    } else if s[0] == '"' {
        Some(0)
    } else {
        let n: int = if s[0] == '\\' {
            2
        } else {
            1
        };
        if n > s.len() {
            None
        } else {
            match string_end(s.skip(n)) {
                Some(k) => Some(k + n),
                None => None,
            }
        }
    }
}

/// `name`, escaped for a JSON string.
pub fn escape(name: &str) -> (s: String)
    ensures
        s@ == escaped(name@),
{
    let v = chars_of(name);
    let mut s = String::new();
    let mut i: usize = 0;
    proof {
        assert(v@.skip(0) =~= v@);
        assert(s@ + escaped(v@) =~= escaped(v@));
    }
    while i < v.len()
        invariant
            i <= v@.len(),
            escaped(v@) == s@ + escaped(v@.skip(i as int)),
        decreases v@.len() - i,
    {
        let ghost before = s@;
        let c = v[i];
        if c == '\\' || c == '"' {
            s.push('\\');
        }
        s.push(c);
        proof {
            assert(s@ =~= before + escaped_char(c));
            assert(v@.skip(i as int).skip(1) =~= v@.skip(i + 1));
            let rest = escaped(v@.skip(i + 1));
            assert(before + (escaped_char(c) + rest) =~= s@ + rest);
        }
        i += 1;
    }
    proof {
        assert(v@.skip(i as int) =~= Seq::empty());
        assert(s@ + Seq::<char>::empty() =~= s@);
    }
    s
}

/// The request to read a property of the player.
pub open spec fn get_property(prop: Seq<char>) -> Seq<char> {
    "{\"command\":[\"get_property\",\""@ + prop + "\"]}"@
}

/// The request to read the property `prop`.
pub fn get_property_request(prop: &str) -> (s: String)
    ensures
        s@ == get_property(prop@),
{
    let mut s = joined("{\"command\":[\"get_property\",\"", prop);
    s.append("\"]}");
    s
}

/// The request to press a key, by the name that `mpv` gives to it.
pub open spec fn keypress(name: Seq<char>) -> Seq<char> {
    "{\"command\":[\"keypress\",\""@ + escaped(name) + "\"]}"@
}

/// The request to press the key `name`.
pub fn keypress_request(name: &str) -> (s: String)
    ensures
        s@ == keypress(name@),
{
    let mut s = joined("{\"command\":[\"keypress\",\"", escape(name).as_str());
    s.append("\"]}");
    s
}

/// The request to pause, or to go on.
pub fn cycle_pause_request() -> (s: String)
    ensures
        s@ == "{\"command\":[\"cycle\",\"pause\"]}"@,
{
    "{\"command\":[\"cycle\",\"pause\"]}".to_owned()
}

/// A request as it is sent: on a line of its own.
pub fn request_line(json: &str) -> (s: String)
    ensures
        s@ == json@.push('\n'),
{
    let mut s = json.to_owned();
    s.push('\n');
    s
}

/// Whether a reader still waits for a reply, so many milliseconds after the
/// request.
pub fn waits_on(elapsed_ms: u64) -> (b: bool)
    ensures
        b == (elapsed_ms < REPLY_TIMEOUT_MS),
{
    elapsed_ms < REPLY_TIMEOUT_MS
}

/// What a reader does after a read.
#[derive(Clone, Copy, Debug, PartialEq, Eq, Structural)]
pub enum ReadStep {
    /// Read again.
    Again,
    /// Sleep, then read again.
    Wait,
    /// The reply is here, as far as it will come.
    Done,
}

/// A reply that is being read.
pub struct Reply {
    buf: Vec<u8>,
}

impl View for Reply {
    type V = Seq<u8>;

    /// The bytes that were read.
    closed spec fn view(&self) -> Seq<u8> {
        self.buf@
    }
}

/// The bytes after a read: `None` is a read that failed.
pub open spec fn after_read(buf: Seq<u8>, read: Option<Seq<u8>>) -> Seq<u8> {
    match read {
        Some(chunk) => buf + chunk,
        None => buf,
    }
}

/// What comes after a read. The reply is complete with the first line feed; a
/// read of no bytes says that no more will come.
pub open spec fn step_after(buf: Seq<u8>, read: Option<Seq<u8>>) -> ReadStep {
    match read {
        None => ReadStep::Wait,
        Some(chunk) => if chunk.len() == 0 || (buf + chunk).contains(LF) {
            ReadStep::Done
        } else {
            ReadStep::Again
        },
    }
}

/// The bytes inside an optional slice.
pub open spec fn bytes_in(read: Option<&[u8]>) -> Option<Seq<u8>> {
    match read {
        Some(chunk) => Some(chunk@),
        None => None,
    }
}

/// Whether `byte` is among the bytes of `v`.
fn holds(v: &Vec<u8>, byte: u8) -> (b: bool)
    ensures
        b == v@.contains(byte),
{
    let n = v.len();
    let mut i: usize = 0;
    while i < n
        invariant
            n == v@.len(),
            i <= n,
            forall|j: int| 0 <= j < i ==> v@[j] != byte,
        decreases n - i,
    {
        if v[i] == byte {
            assert(v@[i as int] == byte);
            return true;
        }
        i += 1;
    }
    false
}

impl Reply {
    /// A reply before the first read.
    pub fn new() -> (r: Self)
        ensures
            r@ == Seq::<u8>::empty(),
    {
        Reply { buf: Vec::new() }
    }

    /// Takes the outcome of a read: the bytes, or `None` where it failed.
    pub fn on_read(&mut self, read: Option<&[u8]>) -> (step: ReadStep)
        ensures
            final(self)@ == after_read(old(self)@, bytes_in(read)),
            step == step_after(old(self)@, bytes_in(read)),
            read matches Some(chunk) ==> final(self)@ == old(self)@ + chunk@,
            read is None ==> final(self)@ == old(self)@ && step == ReadStep::Wait,
            read matches Some(chunk) ==> step == step_after(old(self)@, Some(chunk@)),
    {
        let ghost before = self@;
        let chunk = match read {
            Some(chunk) => chunk,
            None => {
                return ReadStep::Wait;
            },
        };
        if chunk.len() == 0 {
            assert(before + chunk@ =~= before);
            return ReadStep::Done;
        }
        self.buf.extend_from_slice(chunk);
        assert(self.buf@ =~= before + chunk@);
        if holds(&self.buf, LF) {
            ReadStep::Done
        } else {
            ReadStep::Again
        }
    }

    /// The text of the reply. `None` where the bytes are no valid UTF-8.
    pub fn text(&self) -> (text: Option<String>)
        ensures
            text is Some <==> valid_utf8(self@),
            text matches Some(t) ==> encode_utf8(t@) == self@,
    {
        match core::str::from_utf8(self.buf.as_slice()) {
            Ok(t) => Some(t.to_owned()),
            Err(_) => None,
        }
    }
}

/// The key of a reply's value, with its colon.
pub open spec fn data_key() -> Seq<char> {
    "\"data\":"@
}

/// `key` stands at `i` in `s`.
pub open spec fn occurs_at(s: Seq<char>, key: Seq<char>, i: int) -> bool {
    0 <= i && i + key.len() <= s.len() && s.subrange(i, i + key.len()) == key
}

/// The first place of `key` in `s` is `i`.
pub open spec fn first_at(s: Seq<char>, key: Seq<char>, i: int) -> bool {
    occurs_at(s, key, i) && forall|k: int| k < i ==> !occurs_at(s, key, k)
}

/// A comma or a closing brace, which ends a value.
pub open spec fn is_delimiter(c: char) -> bool {
    c == ',' || c == '}'
}

/// `s` up to its first delimiter.
pub open spec fn up_to_delimiter(s: Seq<char>) -> Seq<char>
    decreases s.len(),
{
    if s.len() == 0 || is_delimiter(s[0]) {
        Seq::empty()
    } else {
        seq![s[0]] + up_to_delimiter(s.skip(1))
    }
}

/// The text of the value that a reply carries: what follows the first `"data":`,
/// up to the next comma or closing brace, without white space around it.
pub open spec fn data_value(reply: Seq<char>) -> Option<Seq<char>> {
    if exists|i: int| first_at(reply, data_key(), i) {
        let i = choose|i: int| first_at(reply, data_key(), i);
        let tail = crate::text::trim_start(reply.skip(i + data_key().len()));
        Some(crate::text::trim(up_to_delimiter(tail)))
    } else {
        None
    }
}

proof fn lemma_first_at(s: Seq<char>, key: Seq<char>, i: int)
    requires
        first_at(s, key, i),
    ensures
        i == choose|k: int| first_at(s, key, k),
{
    let k = choose|k: int| first_at(s, key, k);
    assert(first_at(s, key, k));
    assert(occurs_at(s, key, k) && occurs_at(s, key, i));
}

/// The end of the value that begins at `from`.
fn value_end(v: &Vec<char>, from: usize) -> (end: usize)
    requires
        from <= v@.len(),
    ensures
        from <= end <= v@.len(),
        up_to_delimiter(v@.skip(from as int)) == v@.subrange(from as int, end as int),
{
    let ghost s = v@.skip(from as int);
    let mut j: usize = from;
    proof {
        assert(v@.subrange(from as int, from as int) + up_to_delimiter(s) =~= up_to_delimiter(s));
    }
    while j < v.len() && v[j] != ',' && v[j] != '}'
        invariant
            from <= j <= v@.len(),
            s == v@.skip(from as int),
            up_to_delimiter(s) == v@.subrange(from as int, j as int) + up_to_delimiter(
                v@.skip(j as int),
            ),
        decreases v@.len() - j,
    {
        proof {
            let t = v@.skip(j as int);
            assert(t.skip(1) =~= v@.skip(j + 1));
            let rest = up_to_delimiter(v@.skip(j + 1));
            assert(v@.subrange(from as int, j as int) + (seq![t[0]] + rest) =~= v@.subrange(
                from as int,
                j + 1,
            ) + rest);
        }
        j += 1;
    }
    assert(v@.subrange(from as int, j as int) + Seq::<char>::empty() =~= v@.subrange(
        from as int,
        j as int,
    ));
    j
}

/// Whether `key` stands at `i` in `v`.
fn stands_at(v: &Vec<char>, key: &Vec<char>, i: usize) -> (b: bool)
    requires
        i + key@.len() <= v@.len(),
    ensures
        b == occurs_at(v@, key@, i as int),
{
    let n = key.len();
    let len = v.len();
    let mut k: usize = 0;
    while k < n
        invariant
            n == key@.len(),
            len == v@.len(),
            i + n <= v@.len(),
            k <= n,
            forall|j: int| 0 <= j < k ==> v@[i + j] == key@[j],
        decreases n - k,
    {
        if v[i + k] != key[k] {
            assert(v@.subrange(i as int, i + n)[k as int] != key@[k as int]);
            return false;
        }
        k += 1;
    }
    assert(v@.subrange(i as int, i + n) =~= key@);
    true
}

/// The text of the value that a reply carries.
pub fn data_text(reply: &str) -> (value: Option<String>)
    ensures
        crate::text::text_in(value) == data_value(reply@),
{
    let v = chars_of(reply);
    let key = chars_of("\"data\":");
    let n = v.len();
    let m = key.len();
    let mut i: usize = 0;
    proof {
        reveal_strlit("\"data\":");
    }
    while i <= n && m <= n - i
        invariant
            n == v@.len(),
            m == key@.len(),
            0 < m,
            key@ == data_key(),
            v@ == reply@,
            forall|k: int| k < i ==> !occurs_at(v@, key@, k),
        decreases n - i,
    {
        if stands_at(&v, &key, i) {
            proof {
                assert(first_at(reply@, data_key(), i as int));
                lemma_first_at(reply@, data_key(), i as int);
            }
            let start = skip_white(&v, i + m, n);
            let end = value_end(&v, start);
            proof {
                assert(v@.subrange(i + m, n as int) =~= v@.skip(i + m));
                assert(v@.subrange(start as int, n as int) =~= v@.skip(start as int));
            }
            return Some(trimmed(&v, start, end));
        }
        i += 1;
    }
    None
}

/// The bytes after all the reads, in order.
pub open spec fn after_reads(buf: Seq<u8>, reads: Seq<Option<Seq<u8>>>) -> Seq<u8>
    decreases reads.len(),
{
    if reads.len() == 0 {
        buf
    } else {
        after_read(after_reads(buf, reads.drop_last()), reads.last())
    }
}

/// The bytes that the reads brought, one after the other.
pub open spec fn brought(reads: Seq<Option<Seq<u8>>>) -> Seq<u8>
    decreases reads.len(),
{
    if reads.len() == 0 {
        Seq::empty()
    } else {
        match reads.last() {
            Some(chunk) => brought(reads.drop_last()) + chunk,
            None => brought(reads.drop_last()),
        }
    }
}

/// Each of the reads is asked for: the first one is, and each of the others
/// because the one before it did not complete the reply.
pub open spec fn reads_on(reads: Seq<Option<Seq<u8>>>) -> bool {
    forall|i: int|
        0 <= i < reads.len() - 1 ==> step_after(
            after_reads(Seq::empty(), #[trigger] reads.take(i)),
            reads[i],
        ) != ReadStep::Done
}

/// A reply is what the reads brought, in order, with nothing lost and nothing
/// added.
pub proof fn law_reply_is_what_was_read(reads: Seq<Option<Seq<u8>>>)
    ensures
        after_reads(Seq::empty(), reads) == brought(reads),
    decreases reads.len(),
{
    if reads.len() > 0 {
        law_reply_is_what_was_read(reads.drop_last());
    }
}

/// As long as a reply is read, no line feed has come: reading ends with the read
/// that brings the first one, or with a read of no bytes, and with no other.
pub proof fn law_reading_ends_with_the_line(reads: Seq<Option<Seq<u8>>>)
    requires
        reads.len() > 0,
        reads_on(reads),
    ensures
        !brought(reads.drop_last()).contains(LF),
        step_after(after_reads(Seq::empty(), reads.drop_last()), reads.last()) == ReadStep::Done
            <==> brought(reads).contains(LF) || (reads.last() matches Some(chunk)
            && chunk.len() == 0),
    decreases reads.len(),
{
    let prior = reads.drop_last();
    law_reply_is_what_was_read(prior);
    law_reply_is_what_was_read(reads);
    if prior.len() > 0 {
        assert forall|i: int| 0 <= i < prior.len() - 1 implies step_after(
            after_reads(Seq::empty(), #[trigger] prior.take(i)),
            prior[i],
        ) != ReadStep::Done by {
            assert(prior.take(i) =~= reads.take(i));
        }
        law_reading_ends_with_the_line(prior);
        let i = prior.len() - 1;
        assert(reads.take(i) =~= prior.drop_last());
        assert(reads[i] == prior.last());
    }
}

/// Escaped text says what it was made from.
pub proof fn law_escape_reads_back(s: Seq<char>)
    ensures
        unescaped(escaped(s)) == s,
    decreases s.len(),
{
    if s.len() > 0 {
        law_escape_reads_back(s.skip(1));
        let e = escaped(s);
        let rest = escaped(s.skip(1));
        let n = escaped_char(s[0]).len() as int;
        assert(e.skip(n) =~= rest);
        assert(seq![s[0]] + s.skip(1) =~= s);
    } else {
        assert(s =~= Seq::empty());
    }
}

/// Whatever the name of a key holds, it does not end the string that it is put
/// into: the quote that ends it is the one behind it.
pub proof fn law_escape_stays_inside(s: Seq<char>, rest: Seq<char>)
    ensures
        string_end(escaped(s) + seq!['"'] + rest) == Some(escaped(s).len() as int),
    decreases s.len(),
{
    let all = escaped(s) + seq!['"'] + rest;
    if s.len() > 0 {
        law_escape_stays_inside(s.skip(1), rest);
        let n = escaped_char(s[0]).len() as int;
        assert(all.skip(n) =~= escaped(s.skip(1)) + seq!['"'] + rest);
        assert(all[0] == escaped_char(s[0])[0]);
    } else {
        assert(all[0] == '"');
    }
}

proof fn lemma_up_to_delimiter(v: Seq<char>, rest: Seq<char>)
    requires
        forall|i: int| 0 <= i < v.len() ==> !is_delimiter(#[trigger] v[i]),
        rest.len() > 0,
        is_delimiter(rest[0]),
    ensures
        up_to_delimiter(v + rest) == v,
    decreases v.len(),
{
    let s = v + rest;
    if v.len() > 0 {
        let t = v.skip(1);
        assert forall|i: int| 0 <= i < t.len() implies !is_delimiter(#[trigger] t[i]) by {
            assert(!is_delimiter(v[i + 1]));
        }
        lemma_up_to_delimiter(t, rest);
        assert(s[0] == v[0]);
        assert(s.skip(1) =~= t + rest);
        assert(seq![v[0]] + t =~= v);
    } else {
        assert(s =~= rest);
        assert(v =~= Seq::empty());
    }
}

/// The value of a reply is read back as it was written: `value`, which holds no
/// delimiter and no white space at its ends, behind the first `"data":` and
/// before a delimiter.
pub proof fn law_value_reads_back(before: Seq<char>, value: Seq<char>, after: Seq<char>)
    requires
        forall|i: int|
            i < before.len() ==> !occurs_at(before + data_key() + value + after, data_key(), i),
        forall|i: int| 0 <= i < value.len() ==> !is_delimiter(#[trigger] value[i]),
        value.len() > 0 ==> !crate::text::white_space(value[0]) && !crate::text::white_space(
            value.last(),
        ),
        after.len() > 0,
        is_delimiter(after[0]),
    ensures
        data_value(before + data_key() + value + after) == Some(value),
{
    let key = data_key();
    let s = before + key + value + after;
    let i = before.len() as int;
    assert(s.subrange(i, i + key.len()) =~= key);
    assert(first_at(s, key, i));
    lemma_first_at(s, key, i);
    let tail = value + after;
    assert(s.skip(i + key.len()) =~= tail);
    assert(!crate::text::white_space(tail[0]));
    lemma_up_to_delimiter(value, after);
    crate::text::law_trim_keeps(value);
}

/// Inside a string a quote and a backslash get a backslash before them, every
/// other character stands for itself, and texts are escaped piece by piece.
pub proof fn law_only_quotes_and_backslashes_are_escaped(c: char, a: Seq<char>, b: Seq<char>)
    ensures
        c == '"' || c == '\\' ==> escaped(seq![c]) == seq!['\\', c],
        c != '"' && c != '\\' ==> escaped(seq![c]) == seq![c],
        escaped(a + b) == escaped(a) + escaped(b),
        escaped(Seq::<char>::empty()) == Seq::<char>::empty(),
{
    let one = seq![c];
    assert(one.skip(1) =~= Seq::empty());
    assert(escaped(Seq::<char>::empty()) =~= Seq::empty());
    assert(escaped(one) =~= escaped_char(c));
    lemma_escaped_joins(a, b);
}

proof fn lemma_escaped_joins(a: Seq<char>, b: Seq<char>)
    ensures
        escaped(a + b) == escaped(a) + escaped(b),
    decreases a.len(),
{
    if a.len() > 0 {
        lemma_escaped_joins(a.skip(1), b);
        assert((a + b).skip(1) =~= a.skip(1) + b);
        assert((a + b)[0] == a[0]);
        let e = escaped_char(a[0]);
        assert(e + (escaped(a.skip(1)) + escaped(b)) =~= (e + escaped(a.skip(1))) + escaped(b));
    } else {
        assert(a + b =~= b);
        assert(escaped(a) + escaped(b) =~= escaped(b));
    }
}

/// Text without quotes and backslashes is escaped to itself.
pub proof fn law_plain_text_is_not_escaped(s: Seq<char>)
    requires
        !s.contains('"'),
        !s.contains('\\'),
    ensures
        escaped(s) == s,
    decreases s.len(),
{
    if s.len() > 0 {
        let t = s.skip(1);
        assert(s.contains(s[0]));
        assert forall|i: int| 0 <= i < t.len() implies t[i] != '"' && t[i] != '\\' by {
            assert(s.contains(s[i + 1]));
        }
        law_plain_text_is_not_escaped(t);
        assert(seq![s[0]] + t =~= s);
    } else {
        assert(s =~= Seq::empty());
    }
}

/// The request to press a key is the command `keypress` with one string, which
/// says the name of the key, whatever the name holds; nothing follows the string
/// but the end of the command.
pub proof fn law_keypress_says_the_name(name: Seq<char>)
    ensures
        ({
            let start = "{\"command\":[\"keypress\",\""@;
            let request = keypress(name);
            let string = request.skip(start.len() as int);
            let n = string_end(string)->0;
            &&& request.take(start.len() as int) == start
            &&& string_end(string) is Some
            &&& 0 <= n <= string.len()
            &&& string.take(n) == escaped(name)
            &&& unescaped(string.take(n)) == name
            &&& string.skip(n) == "\"]}"@
        }),
{
    let start = "{\"command\":[\"keypress\",\""@;
    let request = keypress(name);
    let string = request.skip(start.len() as int);
    reveal_strlit("\"]}");
    let end = "\"]}"@;
    assert(end =~= seq!['"'] + seq![']', '}']);
    assert(request.take(start.len() as int) =~= start);
    assert(string =~= escaped(name) + seq!['"'] + seq![']', '}']);
    law_escape_stays_inside(name, seq![']', '}']);
    law_escape_reads_back(name);
    assert(string.take(escaped(name).len() as int) =~= escaped(name));
    assert(string.skip(escaped(name).len() as int) =~= end);
}

/// The request for a property is the command `get_property` with one string, the
/// name of the property as it is.
pub proof fn law_property_is_named(prop: Seq<char>)
    ensures
        ({
            let start = "{\"command\":[\"get_property\",\""@;
            let request = get_property(prop);
            let end = start.len() + prop.len();
            &&& end <= request.len()
            &&& request.take(start.len() as int) == start
            &&& request.subrange(start.len() as int, end as int) == prop
            &&& request.skip(end as int) == "\"]}"@
        }),
{
    let start = "{\"command\":[\"get_property\",\""@;
    let request = get_property(prop);
    let end = start.len() + prop.len();
    assert(request.take(start.len() as int) =~= start);
    assert(request.subrange(start.len() as int, end as int) =~= prop);
    assert(request.skip(end as int) =~= "\"]}"@);
}

/// A read that failed is followed by a pause, and no other read is. Reading ends
/// with a read of no bytes, and with the read after which a line feed is among
/// all the bytes.
pub proof fn law_step_after_a_read(buf: Seq<u8>, chunk: Seq<u8>)
    ensures
        step_after(buf, None) == ReadStep::Wait,
        after_read(buf, None) == buf,
        after_read(buf, Some(chunk)) == buf + chunk,
        step_after(buf, Some(chunk)) == ReadStep::Done <==> chunk.len() == 0 || (exists|i: int|
            0 <= i < (buf + chunk).len() && (buf + chunk)[i] == 0x0a),
        step_after(buf, Some(chunk)) != ReadStep::Wait,
{
    if chunk.len() > 0 && step_after(buf, Some(chunk)) == ReadStep::Done {
        let i = choose|i: int| 0 <= i < (buf + chunk).len() && (buf + chunk)[i] == LF;
        assert((buf + chunk)[i] == 0x0a);
    }
    if exists|i: int| 0 <= i < (buf + chunk).len() && (buf + chunk)[i] == 0x0a {
        let i = choose|i: int| 0 <= i < (buf + chunk).len() && (buf + chunk)[i] == 0x0a;
        assert((buf + chunk).contains((buf + chunk)[i]));
    }
}

/// The value of a reply stands behind the first `"data":`. It ends with the first
/// comma or closing brace, or with the reply, and the white space on either side
/// is not part of it.
pub proof fn law_value_between_white_space(
    before: Seq<char>,
    left: Seq<char>,
    value: Seq<char>,
    right: Seq<char>,
    after: Seq<char>,
)
    requires
        ({
            let key = "\"data\":"@;
            let reply = before + key + left + value + right + after;
            forall|i: int|
                0 <= i < before.len() ==> #[trigger] reply.subrange(i, i + key.len()) != key
        }),
        crate::text::blank(left),
        crate::text::blank(right),
        forall|i: int|
            0 <= i < value.len() ==> #[trigger] value[i] != ',' && value[i] != '}',
        value.len() > 0 ==> !crate::text::white_space(value[0]) && !crate::text::white_space(
            value.last(),
        ),
        after.len() == 0 || after[0] == ',' || after[0] == '}',
    ensures
        data_value(before + "\"data\":"@ + left + value + right + after) == Some(value),
{
    let key = data_key();
    let s = before + key + left + value + right + after;
    let n = before.len() as int;
    assert(s.subrange(n, n + key.len()) =~= key);
    assert forall|k: int| k < n implies !occurs_at(s, key, k) by {
        if 0 <= k {
            assert(s.subrange(k, k + key.len()) != key);
        }
    }
    assert(first_at(s, key, n));
    lemma_first_at(s, key, n);
    let body = left + value + right;
    assert(s.skip(n + key.len()) =~= body + after);
    lemma_value(left, value, right, after);
}

proof fn lemma_value(left: Seq<char>, value: Seq<char>, right: Seq<char>, after: Seq<char>)
    requires
        crate::text::blank(left),
        crate::text::blank(right),
        forall|i: int|
            0 <= i < value.len() ==> #[trigger] value[i] != ',' && value[i] != '}',
        value.len() > 0 ==> !crate::text::white_space(value[0]) && !crate::text::white_space(
            value.last(),
        ),
        after.len() == 0 || after[0] == ',' || after[0] == '}',
    ensures
        crate::text::trim(
            up_to_delimiter(crate::text::trim_start(left + value + right + after)),
        ) == value,
{
    let all = left + value + right + after;
    let none = Seq::<char>::empty();
    if value.len() > 0 {
        let tail = value + right + after;
        assert(all =~= left + tail);
        assert(tail[0] == value[0]);
        crate::text::law_trim_start_takes_white_space(left, tail);
        let v = value + right;
        assert forall|i: int| 0 <= i < v.len() implies !is_delimiter(#[trigger] v[i]) by {
            if i < value.len() {
                assert(v[i] == value[i]);
            } else {
                assert(v[i] == right[i - value.len()]);
            }
        }
        lemma_up_to_end(v, after);
        assert(none + value + right =~= v);
        crate::text::law_trim_takes_white_space(none, value, right);
    } else {
        let white = left + right;
        assert forall|i: int| 0 <= i < white.len() implies crate::text::white_space(
            #[trigger] white[i],
        ) by {
            if i < left.len() {
                assert(white[i] == left[i]);
            } else {
                assert(white[i] == right[i - left.len()]);
            }
        }
        assert(all =~= white + after);
        crate::text::law_trim_start_takes_white_space(white, after);
        assert(none + after =~= after);
        lemma_up_to_end(none, after);
        assert(value =~= none);
        crate::text::law_trim_keeps(none);
    }
}

proof fn lemma_up_to_end(v: Seq<char>, rest: Seq<char>)
    requires
        forall|i: int| 0 <= i < v.len() ==> !is_delimiter(#[trigger] v[i]),
        rest.len() == 0 || is_delimiter(rest[0]),
    ensures
        up_to_delimiter(v + rest) == v,
    decreases v.len(),
{
    if rest.len() > 0 {
        lemma_up_to_delimiter(v, rest);
    } else if v.len() > 0 {
        let t = v.skip(1);
        assert forall|i: int| 0 <= i < t.len() implies !is_delimiter(#[trigger] t[i]) by {
            assert(!is_delimiter(v[i + 1]));
        }
        lemma_up_to_end(t, rest);
        assert((v + rest).skip(1) =~= t + rest);
        assert(seq![v[0]] + t =~= v);
    } else {
        assert(v + rest =~= v);
        assert(v =~= Seq::empty());
    }
}

/// A reply in which `"data":` does not stand has no value.
pub proof fn law_no_data_no_value(reply: Seq<char>)
    requires
        ({
            let key = "\"data\":"@;
            forall|i: int|
                0 <= i && i + key.len() <= reply.len() ==> #[trigger] reply.subrange(
                    i,
                    i + key.len(),
                ) != key
        }),
    ensures
        data_value(reply) is None,
{
    let key = data_key();
    assert forall|i: int| !first_at(reply, key, i) by {
        if occurs_at(reply, key, i) {
            assert(reply.subrange(i, i + key.len()) == key);
        }
    }
}

} // verus!
