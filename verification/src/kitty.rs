//! Kitty graphics commands inside a byte stream.
//!
//! A command is `ESC _ G`, a body, and the terminator `ESC \`. The body is a
//! header of comma separated `key=value` fields and, behind the first `;`, a
//! payload. A command with the field `a=T` or `a=p` places an image; without a
//! `z` field the image lies at z-index 0, below the text of the cells it
//! covers. [`rewrite_kitty_z`] gives every such placement the field `z=1` and
//! passes everything else through.
use crate::ascii::{
    BACKSLASH, COMMA, DIGIT_1, EQUALS, ESC, LOWER_A, LOWER_D, LOWER_P, LOWER_Z,
    SEMICOLON, UNDERSCORE, UPPER_A, UPPER_G, UPPER_T,
};
use vstd::prelude::*;
use vstd::utf8::*;

verus! {

/// `s` begins with `ESC _ G`.
pub open spec fn opens_command(s: Seq<u8>) -> bool {
    s.len() >= 3 && s[0] == ESC && s[1] == UNDERSCORE && s[2] == UPPER_G
}

/// A terminator `ESC \` stands at `e`, behind the three opening bytes of `s`.
pub open spec fn terminator_at(s: Seq<u8>, e: int) -> bool {
    3 <= e && e + 1 < s.len() && s[e] == ESC && s[e + 1] == BACKSLASH
}

/// The first terminator of `s` stands at `e`.
pub open spec fn ends_at(s: Seq<u8>, e: int) -> bool {
    terminator_at(s, e) && forall|k: int| k < e ==> !terminator_at(s, k)
}

/// A field of the header `h` begins at `p`.
pub open spec fn field_at(h: Seq<u8>, p: int) -> bool {
    0 <= p < h.len() && (p == 0 || h[p - 1] == COMMA)
}

/// A field of `h` that begins at `p` is `a=T` or `a=p`.
pub open spec fn placement_at(h: Seq<u8>, p: int) -> bool {
    &&& field_at(h, p)
    &&& p + 2 < h.len()
    &&& h[p] == LOWER_A && h[p + 1] == EQUALS && (h[p + 2] == UPPER_T || h[p + 2] == LOWER_P)
    &&& p + 3 == h.len() || h[p + 3] == COMMA
}

/// A field of `h` that begins at `p` starts with `z=`.
pub open spec fn z_at(h: Seq<u8>, p: int) -> bool {
    field_at(h, p) && p + 1 < h.len() && h[p] == LOWER_Z && h[p + 1] == EQUALS
}

/// `h` has a field that makes the command a placement.
pub open spec fn is_placement(h: Seq<u8>) -> bool {
    exists|p: int| placement_at(h, p)
}

/// `h` has a `z` field.
pub open spec fn has_z(h: Seq<u8>) -> bool {
    exists|p: int| z_at(h, p)
}

/// `h` is the header of a placement that leaves its z-index open. A header that
/// is no text has no fields.
pub open spec fn lacks_z(h: Seq<u8>) -> bool {
    valid_utf8(h) && is_placement(h) && !has_z(h)
}

/// The part of a command's body before its first `;`.
pub open spec fn header(body: Seq<u8>) -> Seq<u8> {
    match body.index_of_first(SEMICOLON) {
        Some(k) => body.take(k),
        None => body,
    }
}

/// What is put behind the header of a placement that lacks a z-index: `,z=1`.
pub open spec fn z_field() -> Seq<u8> {
    seq![COMMA, LOWER_Z, EQUALS, DIGIT_1]
}

/// The body of the command that is written for `body`.
pub open spec fn raised(body: Seq<u8>) -> Seq<u8> {
    let h = header(body);
    if lacks_z(h) {
        h + z_field() + body.skip(h.len() as int)
    } else {
        body
    }
}

/// The command with the given body.
pub open spec fn command(body: Seq<u8>) -> Seq<u8> {
    seq![ESC, UNDERSCORE, UPPER_G] + body + seq![ESC, BACKSLASH]
}

/// The length of the first unit of `s`: a whole command, or one byte that begins
/// no command. `None` where more bytes are needed to tell.
pub open spec fn unit_len(s: Seq<u8>) -> Option<int> {
    if s.len() == 0 {
        None
    } else if s[0] != ESC {
        Some(1)
    } else if s.len() < 3 {
        None
    } else if !opens_command(s) {
        Some(1)
    } else if exists|e: int| ends_at(s, e) {
        Some((choose|e: int| ends_at(s, e)) + 2)
    } else {
        None
    }
}

/// What is written for one unit.
pub open spec fn unit_output(u: Seq<u8>) -> Seq<u8> {
    if opens_command(u) {
        command(raised(u.subrange(3, u.len() - 2)))
    } else {
        u
    }
}

/// What is written for the whole units of `s`, and the bytes behind them, which
/// wait for more.
pub open spec fn rewritten(s: Seq<u8>) -> (Seq<u8>, Seq<u8>)
    decreases s.len(),
{
    match unit_len(s) {
        Some(n) => if 0 < n <= s.len() {
            let (out, rest) = rewritten(s.skip(n));
            (unit_output(s.take(n)) + out, rest)
        } else {
            (Seq::empty(), s)
        },
        None => (Seq::empty(), s),
    }
}

proof fn lemma_unit_at(s: Seq<u8>, e: int)
    requires
        opens_command(s),
        ends_at(s, e),
    ensures
        unit_len(s) == Some(e + 2),
{
    let c = choose|c: int| ends_at(s, c);
    assert(ends_at(s, c));
    assert(c == e);
}

proof fn lemma_unit_len(s: Seq<u8>)
    ensures
        unit_len(s) matches Some(n) ==> 0 < n <= s.len() && (opens_command(s) ==> ends_at(s, n - 2)),
{
    if opens_command(s) && exists|e: int| ends_at(s, e) {
        let e = choose|e: int| ends_at(s, e);
        lemma_unit_at(s, e);
    }
}

/// Appends `bytes` to `out`.
fn extend(out: &mut Vec<u8>, bytes: &[u8])
    ensures
        final(out)@ == old(out)@ + bytes@,
{
    let ghost before = out@;
    out.extend_from_slice(bytes);
    assert(out@ =~= before + bytes@);
}

/// A copy of `buf[i..]`.
fn rest_of(buf: &[u8], i: usize) -> (rest: Vec<u8>)
    requires
        i <= buf@.len(),
    ensures
        rest@ == buf@.skip(i as int),
{
    let rest = vstd::slice::slice_to_vec(vstd::slice::slice_subrange(buf, i, buf.len()));
    assert(rest@ =~= buf@.skip(i as int));
    rest
}

/// The place of the first terminator of the command that begins at `i`.
fn find_terminator(buf: &[u8], i: usize) -> (end: Option<usize>)
    requires
        i + 3 <= buf@.len(),
    ensures
        match end {
            Some(j) => i <= j && ends_at(buf@.skip(i as int), j - i),
            None => forall|e: int| !ends_at(buf@.skip(i as int), e),
        },
{
    let n = buf.len();
    let ghost s = buf@.skip(i as int);
    let mut j: usize = i + 3;
    while j < n && n - j > 1
        invariant
            n == buf@.len(),
            i + 3 <= j <= n,
            s == buf@.skip(i as int),
            forall|k: int| k < j - i ==> !terminator_at(s, k),
        decreases n - j,
    {
        if buf[j] == ESC && buf[j + 1] == BACKSLASH {
            assert(terminator_at(s, j - i));
            return Some(j);
        }
        j += 1;
    }
    None
}

/// The end of the header of the body `buf[from..to]`.
fn header_end(buf: &[u8], from: usize, to: usize) -> (sep: usize)
    requires
        from <= to <= buf@.len(),
    ensures
        from <= sep <= to,
        header(buf@.subrange(from as int, to as int)) == buf@.subrange(from as int, sep as int),
{
    let ghost body = buf@.subrange(from as int, to as int);
    let mut k: usize = from;
    while k < to
        invariant
            from <= k <= to <= buf@.len(),
            body == buf@.subrange(from as int, to as int),
            forall|j: int| 0 <= j < k - from ==> body[j] != SEMICOLON,
        decreases to - k,
    {
        if buf[k] == SEMICOLON {
            proof {
                body.index_of_first_ensures(SEMICOLON);
                assert(body[k - from] == SEMICOLON);
                assert(body.contains(SEMICOLON));
                assert(body.index_of_first(SEMICOLON) == Some(k - from));
                assert(body.take(k - from) =~= buf@.subrange(from as int, k as int));
            }
            return k;
        }
        k += 1;
    }
    proof {
        body.index_of_first_ensures(SEMICOLON);
    }
    to
}

/// Whether `h` is the header of a placement without a `z` field.
fn header_lacks_z(h: &[u8]) -> (b: bool)
    ensures
        b == lacks_z(h@),
{
    match core::str::from_utf8(h) {
        Ok(_) => {},
        Err(_) => {
            return false;
        },
    }
    let n = h.len();
    let mut placement: bool = false;
    let mut z: bool = false;
    let mut p: usize = 0;
    while p < n
        invariant
            n == h@.len(),
            p <= n,
            placement ==> is_placement(h@),
            !placement ==> forall|q: int| q < p ==> !placement_at(h@, q),
            z ==> has_z(h@),
            !z ==> forall|q: int| q < p ==> !z_at(h@, q),
        decreases n - p,
    {
        if p == 0 || h[p - 1] == COMMA {
            if n - p >= 2 && h[p] == LOWER_Z && h[p + 1] == EQUALS {
                assert(z_at(h@, p as int));
                z = true;
            }
            if n - p >= 3 && h[p] == LOWER_A && h[p + 1] == EQUALS && (h[p + 2] == UPPER_T || h[p + 2]
                == LOWER_P) && (n - p == 3 || h[p + 3] == COMMA) {
                assert(placement_at(h@, p as int));
                placement = true;
            }
        }
        p += 1;
    }
    placement && !z
}

/// The parts of the command `s[i..end + 2]` whose header ends at `sep`.
proof fn lemma_command_parts(s: Seq<u8>, i: int, sep: int, end: int)
    requires
        0 <= i,
        i + 3 <= sep <= end,
        end + 2 <= s.len(),
        opens_command(s.skip(i)),
        terminator_at(s.skip(i), end - i),
    ensures
        opens_command(s.subrange(i, end + 2)),
        s.subrange(i, end + 2).subrange(3, end - i) == s.subrange(i + 3, end),
        s.subrange(i, sep) == seq![ESC, UNDERSCORE, UPPER_G] + s.subrange(i + 3, sep),
        s.subrange(sep, end + 2) == s.subrange(sep, end) + seq![ESC, BACKSLASH],
        s.subrange(i + 3, end).skip(sep - i - 3) == s.subrange(sep, end),
        s.subrange(i + 3, end) == s.subrange(i + 3, sep) + s.subrange(sep, end),
{
    let t = s.skip(i);
    assert(t[0] == s[i] && t[1] == s[i + 1] && t[2] == s[i + 2]);
    assert(t[end - i] == s[end] && t[end - i + 1] == s[end + 1]);
    assert(s.subrange(i, sep) =~= seq![ESC, UNDERSCORE, UPPER_G] + s.subrange(i + 3, sep));
    assert(s.subrange(sep, end + 2) =~= s.subrange(sep, end) + seq![ESC, BACKSLASH]);
    assert(s.subrange(i, end + 2).subrange(3, end - i) =~= s.subrange(i + 3, end));
    assert(s.subrange(i + 3, end).skip(sep - i - 3) =~= s.subrange(sep, end));
    assert(s.subrange(i + 3, end) =~= s.subrange(i + 3, sep) + s.subrange(sep, end));
}

proof fn lemma_joined(
    before: Seq<u8>,
    open: Seq<u8>,
    h: Seq<u8>,
    z: Seq<u8>,
    r: Seq<u8>,
    close: Seq<u8>,
)
    ensures
        before + (open + h) + z + (r + close) == before + (open + (h + z + r) + close),
        before + (open + h) + (r + close) == before + (open + (h + r) + close),
{
    assert(before + (open + h) + z + (r + close) =~= before + (open + (h + z + r) + close));
    assert(before + (open + h) + (r + close) =~= before + (open + (h + r) + close));
}

/// Writes the command `buf[i..end + 2]`, whose terminator stands at `end`.
fn write_command(buf: &[u8], i: usize, end: usize, out: &mut Vec<u8>)
    requires
        i + 3 <= end,
        end + 2 <= buf@.len(),
        opens_command(buf@.skip(i as int)),
        terminator_at(buf@.skip(i as int), end - i),
    ensures
        final(out)@ == old(out)@ + unit_output(buf@.subrange(i as int, end + 2)),
{
    let n = buf.len();
    let ghost before = out@;
    let sep = header_end(buf, i + 3, end);
    let head = vstd::slice::slice_subrange(buf, i + 3, sep);
    let lacks = header_lacks_z(head);
    extend(out, vstd::slice::slice_subrange(buf, i, sep));
    if lacks {
        extend(out, &[COMMA, LOWER_Z, EQUALS, DIGIT_1]);
    }
    assert(end + 2 <= n);
    extend(out, vstd::slice::slice_subrange(buf, sep, end + 2));
    proof {
        lemma_command_parts(buf@, i as int, sep as int, end as int);
        lemma_joined(
            before,
            seq![ESC, UNDERSCORE, UPPER_G],
            head@,
            z_field(),
            buf@.subrange(sep as int, end as int),
            seq![ESC, BACKSLASH],
        );
        assert(lacks ==> seq![COMMA, LOWER_Z, EQUALS, DIGIT_1] == z_field());
    }
}

proof fn lemma_step(s: Seq<u8>, n: int)
    requires
        unit_len(s) == Some(n),
    ensures
        0 < n <= s.len(),
        rewritten(s).0 == unit_output(s.take(n)) + rewritten(s.skip(n)).0,
        rewritten(s).1 == rewritten(s.skip(n)).1,
{
    lemma_unit_len(s);
}

proof fn lemma_plain(s: Seq<u8>)
    requires
        s.len() > 0,
        s[0] != ESC || (s.len() >= 3 && !opens_command(s)),
    ensures
        unit_len(s) == Some(1int),
        unit_output(s.take(1)) == seq![s[0]],
{
    assert(s.take(1) =~= seq![s[0]]);
}

proof fn lemma_advance(s: Seq<u8>, i: int, n: int, before: Seq<u8>, after: Seq<u8>)
    requires
        0 <= i < s.len(),
        unit_len(s.skip(i)) == Some(n),
        after == before + unit_output(s.skip(i).take(n)),
        rewritten(s).0 == before + rewritten(s.skip(i)).0,
        rewritten(s).1 == rewritten(s.skip(i)).1,
    ensures
        0 < n <= s.len() - i,
        rewritten(s).0 == after + rewritten(s.skip(i + n)).0,
        rewritten(s).1 == rewritten(s.skip(i + n)).1,
{
    lemma_step(s.skip(i), n);
    assert(s.skip(i).skip(n) =~= s.skip(i + n));
    let u = unit_output(s.skip(i).take(n));
    let tail = rewritten(s.skip(i + n)).0;
    assert(before + (u + tail) =~= after + tail);
}

/// Rewrites the whole units of `buf`, and hands back what is written for them
/// and the bytes that wait for more.
pub fn rewrite_kitty_z(buf: &[u8]) -> (res: (Vec<u8>, Vec<u8>))
    ensures
        (res.0@, res.1@) == rewritten(buf@),
{
    let n = buf.len();
    let mut out: Vec<u8> = Vec::new();
    let mut i: usize = 0;
    proof {
        assert(buf@.skip(0) =~= buf@);
        assert(out@ + rewritten(buf@).0 =~= rewritten(buf@).0);
    }
    while i < n
        invariant
            n == buf@.len(),
            i <= n,
            rewritten(buf@).0 == out@ + rewritten(buf@.skip(i as int)).0,
            rewritten(buf@).1 == rewritten(buf@.skip(i as int)).1,
        decreases n - i,
    {
        let ghost s = buf@.skip(i as int);
        let ghost before = out@;
        let b = buf[i];
        assert(s[0] == b);
        if b == ESC {
            if n - i < 3 {
                assert(out@ + Seq::<u8>::empty() =~= out@);
                return (out, rest_of(buf, i));
            }
            if buf[i + 1] == UNDERSCORE && buf[i + 2] == UPPER_G {
                match find_terminator(buf, i) {
                    None => {
                        assert(out@ + Seq::<u8>::empty() =~= out@);
                        return (out, rest_of(buf, i));
                    },
                    Some(end) => {
                        write_command(buf, i, end, &mut out);
                        proof {
                            lemma_unit_at(s, end - i);
                            assert(s.take(end - i + 2) =~= buf@.subrange(i as int, end + 2));
                            lemma_advance(buf@, i as int, end - i + 2, before, out@);
                        }
                        i = end + 2;
                        continue ;
                    },
                }
            }
        }
        out.push(b);
        proof {
            lemma_plain(s);
            assert(out@ =~= before + seq![b]);
            lemma_advance(buf@, i as int, 1, before, out@);
        }
        i += 1;
    }
    proof {
        assert(buf@.skip(n as int) =~= Seq::empty());
        assert(out@ + Seq::<u8>::empty() =~= out@);
    }
    (out, Vec::new())
}

/// The bytes `s` begin no whole unit: they wait for more.
pub open spec fn waits(s: Seq<u8>) -> bool {
    rewritten(s) == (Seq::<u8>::empty(), s)
}

/// How many placements among the whole units of `s` lack a z-index.
pub open spec fn unplaced(s: Seq<u8>) -> nat
    decreases s.len(),
{
    match unit_len(s) {
        Some(n) => if 0 < n <= s.len() {
            let u = s.take(n);
            let here: nat = if opens_command(u) && lacks_z(header(u.subrange(3, u.len() - 2))) {
                1
            } else {
                0
            };
            here + unplaced(s.skip(n))
        } else {
            0
        },
        None => 0,
    }
}

proof fn lemma_unit_extends(a: Seq<u8>, b: Seq<u8>)
    ensures
        unit_len(a) is Some ==> unit_len(a + b) == unit_len(a),
{
    lemma_unit_len(a);
    let c = a + b;
    if let Some(n) = unit_len(a) {
        if opens_command(a) {
            let e = n - 2;
            assert(ends_at(a, e));
            assert forall|k: int| k < e implies !terminator_at(c, k) by {
                assert(!terminator_at(a, k));
            }
            assert(terminator_at(c, e));
            assert(opens_command(c));
            lemma_unit_at(c, e);
        }
    }
}

/// Where a stream is cut does not matter: rewriting `a`, and then what is left
/// of it followed by `b`, writes what rewriting `a` and `b` at once writes, and
/// leaves the same bytes waiting.
pub proof fn law_cut_anywhere(a: Seq<u8>, b: Seq<u8>)
    ensures
        rewritten(a + b).0 == rewritten(a).0 + rewritten(rewritten(a).1 + b).0,
        rewritten(a + b).1 == rewritten(rewritten(a).1 + b).1,
    decreases a.len(),
{
    let r = rewritten(rewritten(a).1 + b);
    match unit_len(a) {
        Some(n) => {
            lemma_step(a, n);
            lemma_unit_extends(a, b);
            lemma_step(a + b, n);
            assert((a + b).take(n) =~= a.take(n));
            assert((a + b).skip(n) =~= a.skip(n) + b);
            law_cut_anywhere(a.skip(n), b);
            let u = unit_output(a.take(n));
            assert(u + (rewritten(a.skip(n)).0 + r.0) =~= (u + rewritten(a.skip(n)).0) + r.0);
        },
        None => {
            assert(Seq::empty() + r.0 =~= r.0);
        },
    }
}

/// What waits is the end of the stream, begins with the escape byte, and still
/// waits when it is looked at again.
pub proof fn law_rest_waits(s: Seq<u8>)
    ensures
        rewritten(s).1.len() <= s.len(),
        rewritten(s).1 == s.skip(s.len() - rewritten(s).1.len()),
        rewritten(s).1.len() > 0 ==> rewritten(s).1[0] == ESC,
        waits(rewritten(s).1),
    decreases s.len(),
{
    match unit_len(s) {
        Some(n) => {
            lemma_step(s, n);
            let t = s.skip(n);
            law_rest_waits(t);
            let k = rewritten(t).1.len();
            assert(s.skip(s.len() - k) =~= t.skip(t.len() - k));
        },
        None => {
            assert(s.skip(0) =~= s);
        },
    }
}

/// Each placement without a z-index grows by the four bytes `,z=1`; nothing else
/// is added and nothing is lost.
pub proof fn law_only_z_is_added(s: Seq<u8>)
    ensures
        rewritten(s).0.len() + rewritten(s).1.len() == s.len() + 4 * unplaced(s),
        unplaced(s) == 0 ==> rewritten(s).0 + rewritten(s).1 == s,
    decreases s.len(),
{
    match unit_len(s) {
        Some(n) => {
            lemma_step(s, n);
            lemma_unit_len(s);
            let u = s.take(n);
            let t = s.skip(n);
            law_only_z_is_added(t);
            if opens_command(u) {
                assert(opens_command(s));
                assert(ends_at(s, n - 2));
                let body = u.subrange(3, u.len() - 2);
                body.index_of_first_ensures(SEMICOLON);
                assert(command(body) =~= u);
            }
            if unplaced(s) == 0 {
                assert(u + t =~= s);
                assert((u + rewritten(t).0) + rewritten(t).1 =~= u + (rewritten(t).0 + rewritten(
                    t,
                ).1));
            }
        },
        None => {
            assert(Seq::empty() + s =~= s);
        },
    }
}

proof fn lemma_first_bytes(s: Seq<u8>)
    ensures
        ({
            let out = rewritten(s).0;
            &&& out.len() >= 1 ==> s.len() >= 1 && out[0] == s[0]
            &&& out.len() >= 2 ==> s.len() >= 2 && out[1] == s[1]
        }),
    decreases s.len(),
{
    if let Some(n) = unit_len(s) {
        lemma_step(s, n);
        lemma_unit_len(s);
        lemma_first_bytes(s.skip(n));
        if opens_command(s) {
            assert(opens_command(s.take(n)));
        } else {
            lemma_plain(s);
        }
    }
}

proof fn lemma_header(body: Seq<u8>)
    ensures
        ({
            let h = header(body);
            let rest = body.skip(h.len() as int);
            &&& h.len() <= body.len()
            &&& h + rest == body
            &&& !h.contains(SEMICOLON)
            &&& rest.len() > 0 ==> rest[0] == SEMICOLON
        }),
{
    body.index_of_first_ensures(SEMICOLON);
    let h = header(body);
    assert(h + body.skip(h.len() as int) =~= body);
}

proof fn lemma_header_of(h: Seq<u8>, rest: Seq<u8>)
    requires
        !h.contains(SEMICOLON),
        rest.len() > 0 ==> rest[0] == SEMICOLON,
    ensures
        header(h + rest) == h,
{
    let body = h + rest;
    body.index_of_first_ensures(SEMICOLON);
    assert forall|i: int| 0 <= i < h.len() implies body[i] != SEMICOLON by {
        assert(h.contains(h[i]));
    }
    if rest.len() > 0 {
        assert(body[h.len() as int] == SEMICOLON);
        assert(body.contains(SEMICOLON));
        assert(body.index_of_first(SEMICOLON) == Some(h.len() as int));
        assert(body.take(h.len() as int) =~= h);
    } else {
        assert(body =~= h);
        assert(!body.contains(SEMICOLON));
    }
}

/// The raised body of a placement has its `z` field, and its header ends where
/// the added field does.
proof fn lemma_raised(body: Seq<u8>)
    ensures
        !lacks_z(header(raised(body))),
{
    let h = header(body);
    let rest = body.skip(h.len() as int);
    lemma_header(body);
    if lacks_z(h) {
        let hz = h + z_field();
        assert(!hz.contains(SEMICOLON)) by {
            assert forall|i: int| 0 <= i < hz.len() implies hz[i] != SEMICOLON by {
                if i < h.len() {
                    assert(h.contains(h[i]));
                }
            }
        }
        lemma_header_of(hz, rest);
        assert(z_at(hz, h.len() as int + 1));
    }
}

/// The command that is written for a command of the stream ends at its last two
/// bytes, whatever follows.
proof fn lemma_raised_ends(body: Seq<u8>, tail: Seq<u8>)
    requires
        ends_at(command(body), 3 + body.len() as int),
    ensures
        ends_at(command(raised(body)) + tail, 3 + raised(body).len() as int),
        opens_command(command(raised(body)) + tail),
{
    let u = command(body);
    let h = header(body);
    lemma_header(body);
    let out = command(raised(body)) + tail;
    let e = 3 + raised(body).len();
    assert(terminator_at(out, e as int));
    assert forall|k: int| k < e implies !terminator_at(out, k) by {
        if terminator_at(out, k) {
            if !lacks_z(h) || k + 1 < 3 + h.len() {
                assert(out[k] == u[k] && out[k + 1] == u[k + 1]);
                assert(terminator_at(u, k));
            } else if k == 3 + h.len() - 1 {
                assert(out[k + 1] == COMMA);
            } else if k < 3 + h.len() + 4 {
                assert(out[k] == z_field()[k - 3 - h.len()]);
            } else {
                assert(out[k] == u[k - 4] && out[k + 1] == u[k - 3]);
                assert(terminator_at(u, k - 4));
            }
        }
    }
}

/// Where `s` begins with a whole command, what is written begins with the command
/// with the raised body, and that command is again a whole unit.
proof fn lemma_command_is_unit(s: Seq<u8>)
    requires
        opens_command(s),
        unit_len(s) is Some,
    ensures
        ({
            let n = unit_len(s)->0;
            let r = raised(s.take(n).subrange(3, n - 2));
            let tail = rewritten(s.skip(n)).0;
            let out = rewritten(s).0;
            let m = 5 + r.len() as int;
            &&& opens_command(out)
            &&& unit_len(out) == Some(m)
            &&& out.take(m) == command(r)
            &&& out.skip(m) == tail
        }),
{
    let n = unit_len(s)->0;
    lemma_step(s, n);
    lemma_unit_len(s);
    let u = s.take(n);
    assert(opens_command(u));
    let body = u.subrange(3, n - 2);
    assert(u =~= command(body));
    assert forall|k: int| k < n - 2 implies !terminator_at(u, k) by {
        assert(!terminator_at(s, k));
    }
    assert(terminator_at(u, n - 2));
    let tail = rewritten(s.skip(n)).0;
    lemma_raised_ends(body, tail);
    let r = raised(body);
    let out = rewritten(s).0;
    lemma_unit_at(out, 3 + r.len() as int);
    let m = 5 + r.len() as int;
    assert(out.take(m) =~= command(r));
    assert(out.skip(m) =~= tail);
}

/// In what is written no placement lacks a z-index.
pub proof fn law_all_placed(s: Seq<u8>)
    ensures
        unplaced(rewritten(s).0) == 0,
    decreases s.len(),
{
    let out = rewritten(s).0;
    match unit_len(s) {
        Some(n) => {
            lemma_step(s, n);
            lemma_unit_len(s);
            let t = s.skip(n);
            let tail = rewritten(t).0;
            law_all_placed(t);
            if opens_command(s) {
                lemma_command_is_unit(s);
                let body = s.take(n).subrange(3, n - 2);
                lemma_raised(body);
                let r = raised(body);
                let m = 5 + r.len() as int;
                assert(out.take(m).subrange(3, m - 2) =~= r);
            } else {
                lemma_plain(s);
                lemma_first_bytes(t);
                assert(out[0] == s[0]);
                assert(out.skip(1) =~= tail);
                if s[0] != ESC || out.len() >= 3 {
                    if s[0] == ESC {
                        assert(out[1] == tail[0] && out[2] == tail[1]);
                    }
                    lemma_plain(out);
                    assert(out.take(1) =~= seq![out[0]]);
                }
            }
        },
        None => {},
    }
}

/// Where nothing is held back of a stream, nothing is held back of what is
/// written for it.
proof fn lemma_second_rest(s: Seq<u8>)
    requires
        rewritten(s).1.len() == 0,
    ensures
        rewritten(rewritten(s).0).1.len() == 0,
    decreases s.len(),
{
    let out = rewritten(s).0;
    match unit_len(s) {
        Some(n) => {
            lemma_step(s, n);
            lemma_unit_len(s);
            let t = s.skip(n);
            let tail = rewritten(t).0;
            lemma_second_rest(t);
            if opens_command(s) {
                lemma_command_is_unit(s);
                let r = raised(s.take(n).subrange(3, n - 2));
                lemma_step(out, 5 + r.len() as int);
            } else {
                lemma_plain(s);
                lemma_first_bytes(t);
                law_only_z_is_added(t);
                assert(out[0] == s[0]);
                assert(out.skip(1) =~= tail);
                if s[0] == ESC {
                    assert(out[1] == tail[0] && out[2] == tail[1]);
                }
                lemma_plain(out);
                lemma_step(out, 1);
            }
        },
        None => {
            assert(s =~= Seq::empty());
        },
    }
}

/// A second rewriting adds nothing: what it writes and what it holds back are
/// together what it was given. Where the first rewriting held nothing back, the
/// second writes all of it again, unchanged.
pub proof fn law_second_pass(s: Seq<u8>)
    ensures
        ({
            let out = rewritten(s).0;
            rewritten(out).0 + rewritten(out).1 == out
        }),
        rewritten(s).1.len() == 0 ==> rewritten(rewritten(s).0) == (
            rewritten(s).0,
            Seq::<u8>::empty(),
        ),
{
    let out = rewritten(s).0;
    law_all_placed(s);
    law_only_z_is_added(out);
    if rewritten(s).1.len() == 0 {
        lemma_second_rest(s);
        assert(rewritten(out).1 =~= Seq::empty());
        assert(rewritten(out).0 =~= out);
    }
}

/// `body` can be the body of a command: no terminator stands inside it.
pub open spec fn is_body(body: Seq<u8>) -> bool {
    ends_at(command(body), 3 + body.len() as int)
}

proof fn lemma_command(body: Seq<u8>)
    requires
        is_body(body),
    ensures
        rewritten(command(body)) == (command(raised(body)), Seq::<u8>::empty()),
{
    let u = command(body);
    let n = 5 + body.len() as int;
    lemma_unit_at(u, n - 2);
    lemma_step(u, n);
    assert(u.take(n) =~= u);
    assert(u.subrange(3, n - 2) =~= body);
    assert(u.skip(n) =~= Seq::empty());
    assert(rewritten(u).0 =~= command(raised(body)));
}

/// A whole placement that leaves its z-index open is written at once, with the
/// field `z=1` as the last of its header.
pub proof fn law_placement_is_raised(body: Seq<u8>)
    requires
        is_body(body),
        lacks_z(header(body)),
    ensures
        rewritten(command(body)) == (
            command(header(body) + z_field() + body.skip(header(body).len() as int)),
            Seq::<u8>::empty(),
        ),
{
    lemma_command(body);
}

/// A whole command that is no placement, that has a `z` field of its own, or
/// whose header is no text, is written at once as it is.
pub proof fn law_other_commands_are_kept(body: Seq<u8>)
    requires
        is_body(body),
        !lacks_z(header(body)),
    ensures
        rewritten(command(body)) == (command(body), Seq::<u8>::empty()),
{
    lemma_command(body);
}

/// A command whose terminator has not come yet waits, whole.
pub proof fn law_open_command_waits(s: Seq<u8>)
    requires
        opens_command(s),
        forall|e: int| !terminator_at(s, e),
    ensures
        rewritten(s) == (Seq::<u8>::empty(), s),
{
    assert forall|e: int| !ends_at(s, e) by {}
}

/// Text without an escape byte is written as it is.
pub proof fn law_text_is_kept(s: Seq<u8>)
    requires
        !s.contains(ESC),
    ensures
        rewritten(s) == (s, Seq::<u8>::empty()),
    decreases s.len(),
{
    if s.len() > 0 {
        assert(s.contains(s[0]));
        let t = s.skip(1);
        assert forall|i: int| 0 <= i < t.len() implies t[i] != ESC by {
            assert(s.contains(s[i + 1]));
        }
        law_text_is_kept(t);
        lemma_plain(s);
        lemma_step(s, 1);
        assert(seq![s[0]] + t =~= s);
    } else {
        assert(s =~= Seq::empty());
    }
}

/// The command that removes all images from the terminal: `a=d,d=A`.
pub fn clear_graphics() -> (bytes: Vec<u8>)
    ensures
        bytes@ == command(
            seq![LOWER_A, EQUALS, LOWER_D, COMMA, LOWER_D, EQUALS, UPPER_A],
        ),
        bytes@ == seq![0x1bu8, 0x5f, 0x47, 0x61, 0x3d, 0x64, 0x2c, 0x64, 0x3d, 0x41, 0x1b, 0x5c],
{
    let bytes = vec![
        ESC,
        UNDERSCORE,
        UPPER_G,
        LOWER_A,
        EQUALS,
        LOWER_D,
        COMMA,
        LOWER_D,
        EQUALS,
        UPPER_A,
        ESC,
        BACKSLASH,
    ];
    assert(bytes@ =~= command(
        seq![LOWER_A, EQUALS, LOWER_D, COMMA, LOWER_D, EQUALS, UPPER_A],
    ));
    bytes
}

/// Rewrites a stream that arrives in chunks: the bytes that wait after one chunk
/// stand before the next.
pub struct KittyProxy {
    leftover: Vec<u8>,
}

impl View for KittyProxy {
    type V = Seq<u8>;

    /// The bytes that wait for more.
    closed spec fn view(&self) -> Seq<u8> {
        self.leftover@
    }
}

impl KittyProxy {
    /// A proxy before the first chunk.
    pub fn new() -> (proxy: Self)
        ensures
            proxy@ == Seq::<u8>::empty(),
            waits(proxy@),
    {
        KittyProxy { leftover: Vec::new() }
    }

    /// Takes the next chunk and hands back what is written for it.
    pub fn feed(&mut self, chunk: &[u8]) -> (out: Vec<u8>)
        ensures
            (out@, final(self)@) == rewritten(old(self)@ + chunk@),
            waits(final(self)@),
    {
        proof {
            law_rest_waits(self@ + chunk@);
        }
        extend(&mut self.leftover, chunk);
        let (processed, remainder) = rewrite_kitty_z(self.leftover.as_slice());
        self.leftover = remainder;
        processed
    }
}

/// What a proxy with `waiting` writes for the chunks, all together, and what
/// waits then.
pub open spec fn fed(waiting: Seq<u8>, chunks: Seq<Seq<u8>>) -> (Seq<u8>, Seq<u8>)
    decreases chunks.len(),
{
    if chunks.len() == 0 {
        (Seq::empty(), waiting)
    } else {
        let (out, rest) = rewritten(waiting + chunks[0]);
        let (later, last) = fed(rest, chunks.drop_first());
        (out + later, last)
    }
}

/// A proxy writes the same for a stream however the stream is cut into chunks:
/// what the stream is rewritten to as one piece.
pub proof fn law_chunks(waiting: Seq<u8>, chunks: Seq<Seq<u8>>)
    requires
        waits(waiting),
    ensures
        fed(waiting, chunks) == rewritten(waiting + chunks.flatten()),
    decreases chunks.len(),
{
    if chunks.len() == 0 {
        assert(waiting + chunks.flatten() =~= waiting);
    } else {
        let first = waiting + chunks[0];
        let later = chunks.drop_first();
        law_rest_waits(first);
        law_chunks(rewritten(first).1, later);
        law_cut_anywhere(first, later.flatten());
        assert(first + later.flatten() =~= waiting + chunks.flatten());
    }
}

/// The fields of a header: what stands between its commas (0x2c).
pub open spec fn fields(h: Seq<u8>) -> Seq<Seq<u8>>
    decreases h.len(),
{
    match h.index_of_first(0x2cu8) {
        Some(k) => if 0 <= k < h.len() {
            seq![h.take(k)] + fields(h.skip(k + 1))
        } else {
            Seq::empty()
        },
        None => seq![h],
    }
}

/// One of the fields of `h` is `a=T` or `a=p`.
pub open spec fn places(h: Seq<u8>) -> bool {
    fields(h).contains(seq![0x61u8, 0x3du8, 0x54u8]) || fields(h).contains(
        seq![0x61u8, 0x3du8, 0x70u8],
    )
}

/// The field begins with `z=`.
pub open spec fn sets_z(field: Seq<u8>) -> bool {
    field.len() >= 2 && field[0] == 0x7a && field[1] == 0x3d
}

/// One of the fields of `h` begins with `z=`.
pub open spec fn names_z(h: Seq<u8>) -> bool {
    exists|i: int| 0 <= i < fields(h).len() && sets_z(#[trigger] fields(h)[i])
}

/// No `ESC \` stands in `body`.
pub open spec fn unterminated(body: Seq<u8>) -> bool {
    forall|i: int|
        0 <= i && i + 1 < body.len() ==> !(#[trigger] body[i] == 0x1b && body[i + 1] == 0x5c)
}

/// The two parts of a command's body: `h` is its header, and `rest` is empty or
/// begins with the `;` that ends the header.
pub open spec fn splits_into(h: Seq<u8>, rest: Seq<u8>) -> bool {
    &&& !h.contains(0x3bu8)
    &&& rest.len() == 0 || rest[0] == 0x3b
    &&& unterminated(h + rest)
}

proof fn lemma_first_field(h: Seq<u8>, k: int)
    requires
        h.index_of_first(0x2cu8) == Some(k),
    ensures
        0 <= k < h.len(),
        h[k] == 0x2c,
        forall|i: int| 0 <= i < k ==> h[i] != 0x2c,
        fields(h).len() == 1 + fields(h.skip(k + 1)).len(),
        fields(h)[0] == h.take(k),
        forall|i: int|
            0 <= i < fields(h.skip(k + 1)).len() ==> fields(h)[i + 1] == #[trigger] fields(
                h.skip(k + 1),
            )[i],
{
    h.index_of_first_ensures(0x2cu8);
}

proof fn lemma_only_field(h: Seq<u8>)
    requires
        h.index_of_first(0x2cu8) is None,
    ensures
        forall|i: int| 0 <= i < h.len() ==> h[i] != 0x2c,
        fields(h) == seq![h],
{
    h.index_of_first_ensures(0x2cu8);
    assert forall|i: int| 0 <= i < h.len() implies h[i] != 0x2c by {
        assert(h.contains(h[i]));
    }
}

/// The field is `a=T` or `a=p`.
spec fn is_place(field: Seq<u8>) -> bool {
    field == seq![0x61u8, 0x3du8, 0x54u8] || field == seq![0x61u8, 0x3du8, 0x70u8]
}

proof fn lemma_fields_at(h: Seq<u8>, p: int)
    ensures
        placement_at(h, p) ==> exists|i: int|
            0 <= i < fields(h).len() && is_place(#[trigger] fields(h)[i]),
        z_at(h, p) ==> exists|i: int| 0 <= i < fields(h).len() && sets_z(#[trigger] fields(h)[i]),
    decreases h.len(),
{
    match h.index_of_first(0x2cu8) {
        Some(k) => {
            lemma_first_field(h, k);
            let t = h.skip(k + 1);
            if p > k {
                let q = p - k - 1;
                lemma_fields_at(t, q);
                if placement_at(h, p) {
                    assert(placement_at(t, q));
                    let i = choose|i: int|
                        0 <= i < fields(t).len() && is_place(#[trigger] fields(t)[i]);
                    assert(is_place(fields(h)[i + 1]));
                }
                if z_at(h, p) {
                    assert(z_at(t, q));
                    let i = choose|i: int| 0 <= i < fields(t).len() && sets_z(#[trigger] fields(t)[i]);
                    assert(sets_z(fields(h)[i + 1]));
                }
            } else if field_at(h, p) {
                assert(p == 0);
                if placement_at(h, p) {
                    assert(k == 3);
                    assert(h.take(k) =~= seq![h[0], h[1], h[2]]);
                    assert(is_place(fields(h)[0]));
                }
                if z_at(h, p) {
                    assert(k >= 2);
                    assert(sets_z(fields(h)[0]));
                }
            }
        },
        None => {
            lemma_only_field(h);
            if placement_at(h, p) {
                assert(h =~= seq![h[0], h[1], h[2]]);
                assert(is_place(fields(h)[0]));
            }
            if z_at(h, p) {
                assert(sets_z(fields(h)[0]));
            }
        },
    }
}

proof fn lemma_field_places(h: Seq<u8>, i: int)
    requires
        0 <= i < fields(h).len(),
    ensures
        is_place(fields(h)[i]) ==> is_placement(h),
        sets_z(fields(h)[i]) ==> has_z(h),
    decreases h.len(),
{
    match h.index_of_first(0x2cu8) {
        Some(k) => {
            lemma_first_field(h, k);
            let t = h.skip(k + 1);
            let f = fields(h)[i];
            if i > 0 {
                assert(f == fields(t)[i - 1]);
                lemma_field_places(t, i - 1);
                if is_place(f) {
                    let p = choose|p: int| placement_at(t, p);
                    assert(placement_at(h, p + k + 1));
                }
                if sets_z(f) {
                    let p = choose|p: int| z_at(t, p);
                    assert(z_at(h, p + k + 1));
                }
            } else {
                assert(f == h.take(k));
                if is_place(f) {
                    assert(f.len() == 3 && f[0] == 0x61 && f[1] == 0x3d);
                    assert(f[0] == h[0] && f[1] == h[1] && f[2] == h[2]);
                    assert(placement_at(h, 0));
                }
                if sets_z(f) {
                    assert(f[0] == h[0] && f[1] == h[1]);
                    assert(z_at(h, 0));
                }
            }
        },
        None => {
            lemma_only_field(h);
            if is_place(h) {
                assert(h.len() == 3);
                assert(placement_at(h, 0));
            }
            if sets_z(h) {
                assert(z_at(h, 0));
            }
        },
    }
}

proof fn lemma_lacks_z(h: Seq<u8>)
    ensures
        is_placement(h) == places(h),
        has_z(h) == names_z(h),
{
    if is_placement(h) {
        let p = choose|p: int| placement_at(h, p);
        lemma_fields_at(h, p);
        let i = choose|i: int| 0 <= i < fields(h).len() && is_place(#[trigger] fields(h)[i]);
        assert(fields(h).contains(fields(h)[i]));
    }
    if places(h) {
        let a = seq![0x61u8, 0x3du8, 0x54u8];
        let b = seq![0x61u8, 0x3du8, 0x70u8];
        let i = choose|i: int|
            0 <= i < fields(h).len() && (#[trigger] fields(h)[i] == a || fields(h)[i] == b);
        lemma_field_places(h, i);
    }
    if has_z(h) {
        let p = choose|p: int| z_at(h, p);
        lemma_fields_at(h, p);
    }
    if names_z(h) {
        let i = choose|i: int| 0 <= i < fields(h).len() && sets_z(#[trigger] fields(h)[i]);
        lemma_field_places(h, i);
    }
}

proof fn lemma_body(body: Seq<u8>)
    requires
        unterminated(body),
    ensures
        is_body(body),
        command(body) == seq![0x1bu8, 0x5fu8, 0x47u8] + body + seq![0x1bu8, 0x5cu8],
{
    let u = command(body);
    let e = 3 + body.len() as int;
    assert(terminator_at(u, e));
    assert forall|k: int| k < e implies !terminator_at(u, k) by {
        if terminator_at(u, k) {
            assert(u[k] == body[k - 3]);
            if k + 1 < e {
                assert(u[k + 1] == body[k - 2]);
            }
        }
    }
}

/// A whole command whose header is text, has the field `a=T` or `a=p` and no field
/// that begins with `z=`, is written at once, with `,z=1` behind its header.
pub proof fn law_placement_gets_z(h: Seq<u8>, rest: Seq<u8>)
    requires
        splits_into(h, rest),
        valid_utf8(h),
        places(h),
        !names_z(h),
    ensures
        rewritten(seq![0x1bu8, 0x5fu8, 0x47u8] + h + rest + seq![0x1bu8, 0x5cu8]) == (
            seq![0x1bu8, 0x5fu8, 0x47u8] + h + seq![0x2cu8, 0x7au8, 0x3du8, 0x31u8] + rest + seq![
                0x1bu8,
                0x5cu8,
            ],
            Seq::<u8>::empty(),
        ),
{
    let body = h + rest;
    lemma_lacks_z(h);
    lemma_body(body);
    lemma_header_of(h, rest);
    lemma_command(body);
    assert(body.skip(h.len() as int) =~= rest);
    let open = seq![0x1bu8, 0x5fu8, 0x47u8];
    let close = seq![0x1bu8, 0x5cu8];
    assert(open + h + rest + close =~= command(body));
    assert(open + h + seq![0x2cu8, 0x7au8, 0x3du8, 0x31u8] + rest + close =~= command(
        raised(body),
    ));
}

/// Any other whole command is written at once as it is: one whose header is no
/// text, has neither `a=T` nor `a=p`, or has a field that begins with `z=`.
pub proof fn law_any_other_command_passes(h: Seq<u8>, rest: Seq<u8>)
    requires
        splits_into(h, rest),
        !valid_utf8(h) || !places(h) || names_z(h),
    ensures
        ({
            let s = seq![0x1bu8, 0x5fu8, 0x47u8] + h + rest + seq![0x1bu8, 0x5cu8];
            rewritten(s) == (s, Seq::<u8>::empty())
        }),
{
    let body = h + rest;
    lemma_lacks_z(h);
    lemma_body(body);
    lemma_header_of(h, rest);
    lemma_command(body);
    let open = seq![0x1bu8, 0x5fu8, 0x47u8];
    let close = seq![0x1bu8, 0x5cu8];
    assert(open + h + rest + close =~= command(body));
}

/// A header that has no letter `z` at all names no z-index: with the field `a=T`
/// or `a=p` it is always extended.
pub proof fn law_header_without_the_letter(h: Seq<u8>, rest: Seq<u8>)
    requires
        splits_into(h, rest),
        valid_utf8(h),
        !h.contains(0x7au8),
        places(h),
    ensures
        rewritten(seq![0x1bu8, 0x5fu8, 0x47u8] + h + rest + seq![0x1bu8, 0x5cu8]).0 == seq![
            0x1bu8,
            0x5fu8,
            0x47u8,
        ] + h + seq![0x2cu8, 0x7au8, 0x3du8, 0x31u8] + rest + seq![0x1bu8, 0x5cu8],
{
    lemma_lacks_z(h);
    assert(!names_z(h)) by {
        if has_z(h) {
            let p = choose|p: int| z_at(h, p);
            assert(h.contains(h[p]));
        }
    }
    law_placement_gets_z(h, rest);
}

/// A byte that is no escape is written as it is, and what follows is rewritten as
/// if it stood alone.
pub proof fn law_byte_passes(b: u8, s: Seq<u8>)
    requires
        b != 0x1b,
    ensures
        rewritten(seq![b] + s) == (seq![b] + rewritten(s).0, rewritten(s).1),
        rewritten(Seq::<u8>::empty()) == (Seq::<u8>::empty(), Seq::<u8>::empty()),
{
    let all = seq![b] + s;
    lemma_plain(all);
    lemma_step(all, 1);
    assert(all.skip(1) =~= s);
}

/// An escape that opens no command, because other bytes than `_G` follow, is
/// written as it is, and what follows it is rewritten as if it stood alone.
pub proof fn law_escape_passes(b: u8, c: u8, s: Seq<u8>)
    requires
        b != 0x5f || c != 0x47,
    ensures
        rewritten(seq![0x1bu8, b, c] + s) == (
            seq![0x1bu8] + rewritten(seq![b, c] + s).0,
            rewritten(seq![b, c] + s).1,
        ),
{
    let all = seq![0x1bu8, b, c] + s;
    lemma_plain(all);
    lemma_step(all, 1);
    assert(all.skip(1) =~= seq![b, c] + s);
}

/// An escape that fewer than two bytes follow waits for them.
pub proof fn law_short_escape_waits(s: Seq<u8>)
    requires
        1 <= s.len() <= 2,
        s[0] == 0x1b,
    ensures
        rewritten(s) == (Seq::<u8>::empty(), s),
{
}

/// A command that nothing has ended yet waits, whole, however long it is.
pub proof fn law_unended_command_waits(body: Seq<u8>)
    requires
        unterminated(body),
    ensures
        rewritten(seq![0x1bu8, 0x5fu8, 0x47u8] + body) == (
            Seq::<u8>::empty(),
            seq![0x1bu8, 0x5fu8, 0x47u8] + body,
        ),
{
    let s = seq![0x1bu8, 0x5fu8, 0x47u8] + body;
    assert forall|e: int| !terminator_at(s, e) by {
        if terminator_at(s, e) {
            assert(s[e] == body[e - 3] && s[e + 1] == body[e - 2]);
        }
    }
    law_open_command_waits(s);
}

/// What follows a whole command is rewritten as if it stood alone, and the command
/// as if nothing followed.
pub proof fn law_commands_are_rewritten_alone(body: Seq<u8>, s: Seq<u8>)
    requires
        unterminated(body),
    ensures
        ({
            let u = seq![0x1bu8, 0x5fu8, 0x47u8] + body + seq![0x1bu8, 0x5cu8];
            rewritten(u + s) == (rewritten(u).0 + rewritten(s).0, rewritten(s).1)
        }),
{
    let u = seq![0x1bu8, 0x5fu8, 0x47u8] + body + seq![0x1bu8, 0x5cu8];
    lemma_body(body);
    lemma_command(body);
    law_cut_anywhere(u, s);
    assert(Seq::<u8>::empty() + s =~= s);
}

} // verus!
