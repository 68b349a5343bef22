//! Following a growing file: how many bytes have been read, and which lines they hold.

use vstd::prelude::*;
use vstd::utf8::{valid_utf8, decode_utf8};
use crate::trusted::utf8_string;

verus! {

/// Position of the first newline byte of `b` at or after `i` (`b.len()` when there is none).
pub open spec fn newline_at(b: Seq<u8>, i: int) -> int
    decreases b.len() - i,
{
    if i < 0 || i >= b.len() {
        b.len() as int
    } else if b[i] == 10u8 {
        i
    } else {
        newline_at(b, i + 1)
    }
}

/// A line ended by a newline, without the carriage return before it.
pub open spec fn strip_cr(seg: Seq<u8>) -> Seq<u8> {
    if seg.len() > 0 && seg.last() == 13u8 {
        seg.drop_last()
    } else {
        seg
    }
}

/// The lines of `b` as a buffered reader's `lines` reads them: each ends at a newline, which
/// is dropped together with a carriage return just before it; a last line without a newline
/// is kept as it is.
pub open spec fn raw_lines(b: Seq<u8>) -> Seq<Seq<u8>>
    decreases b.len(),
{
    if b.len() == 0 {
        seq![]
    } else {
        let k = newline_at(b, 0);
        if 0 <= k < b.len() {
            seq![strip_cr(b.subrange(0, k))] + raw_lines(b.subrange(k + 1, b.len() as int))
        } else {
            seq![b]
        }
    }
}

/// The lines that are shown: those that are valid UTF-8 and not empty, as text.
pub open spec fn text_lines(ls: Seq<Seq<u8>>) -> Seq<Seq<char>>
    decreases ls.len(),
{
    if ls.len() == 0 {
        seq![]
    } else {
        let rest = text_lines(ls.drop_first());
        if valid_utf8(ls[0]) && ls[0].len() > 0 {
            seq![decode_utf8(ls[0])] + rest
        } else {
            rest
        }
    }
}

/// The non-empty lines that the bytes `b` hold.
pub open spec fn lines_in(b: Seq<u8>) -> Seq<Seq<char>> {
    text_lines(raw_lines(b))
}

proof fn lemma_newline_at(b: Seq<u8>, i: int)
    requires
        0 <= i <= b.len(),
    ensures
        i <= newline_at(b, i) <= b.len(),
        newline_at(b, i) < b.len() ==> b[newline_at(b, i)] == 10u8,
    decreases b.len() - i,
{
    if i < b.len() && b[i] != 10u8 {
        lemma_newline_at(b, i + 1);
    }
}

/// Scanning a prefix that holds a newline finds it as in the whole.
proof fn lemma_newline_prefix(c: Seq<u8>, d: Seq<u8>, i: int)
    requires
        0 <= i <= c.len(),
        newline_at(c, i) < c.len(),
    ensures
        newline_at(c + d, i) == newline_at(c, i),
    decreases c.len() - i,
{
    assert((c + d)[i] == c[i]);
    if c[i] != 10u8 {
        lemma_newline_prefix(c, d, i + 1);
    }
}

proof fn lemma_text_lines_append(a: Seq<Seq<u8>>, b: Seq<Seq<u8>>)
    ensures
        text_lines(a + b) == text_lines(a) + text_lines(b),
    decreases a.len(),
{
    if a.len() == 0 {
        assert(a + b =~= b);
    } else {
        assert((a + b).drop_first() =~= a.drop_first() + b);
        assert((a + b)[0] == a[0]);
        lemma_text_lines_append(a.drop_first(), b);
    }
}

/// Bytes that end with a newline split into lines apart from what follows them.
pub proof fn lemma_raw_lines_append(c: Seq<u8>, d: Seq<u8>)
    requires
        c.len() == 0 || c.last() == 10u8,
    ensures
        raw_lines(c + d) == raw_lines(c) + raw_lines(d),
    decreases c.len(),
{
    if c.len() == 0 {
        assert(c + d =~= d);
        assert(raw_lines(c) =~= Seq::<Seq<u8>>::empty());
    } else {
        let k = newline_at(c, 0);
        lemma_newline_at(c, 0);
        if newline_at(c, 0) == c.len() {
            // the last byte is a newline, so the scan stops at or before it
            lemma_newline_exists(c, 0, c.len() - 1);
        }
        lemma_newline_prefix(c, d, 0);
        let rest = c.subrange(k + 1, c.len() as int);
        assert((c + d).subrange(0, k) =~= c.subrange(0, k));
        assert((c + d).subrange(k + 1, (c + d).len() as int) =~= rest + d);
        if rest.len() > 0 {
            assert(rest.last() == c.last());
        }
        lemma_raw_lines_append(rest, d);
        assert(seq![strip_cr(c.subrange(0, k))] + (raw_lines(rest) + raw_lines(d)) =~= (seq![
            strip_cr(c.subrange(0, k)),
        ] + raw_lines(rest)) + raw_lines(d));
    }
}

proof fn lemma_newline_exists(b: Seq<u8>, i: int, j: int)
    requires
        0 <= i <= j < b.len(),
        b[j] == 10u8,
    ensures
        newline_at(b, i) <= j,
    decreases j - i,
{
    if b[i] != 10u8 {
        lemma_newline_exists(b, i + 1, j);
    }
}

/// Reading bytes that end with a newline, then what follows, gives the lines of reading
/// both at once.
pub proof fn lemma_lines_in_append(c: Seq<u8>, d: Seq<u8>)
    requires
        c.len() == 0 || c.last() == 10u8,
    ensures
        lines_in(c + d) == lines_in(c) + lines_in(d),
{
    lemma_raw_lines_append(c, d);
    lemma_text_lines_append(raw_lines(c), raw_lines(d));
}

/// The non-empty lines that the bytes hold, as text.
pub fn lines_of(b: &[u8]) -> (r: Vec<String>)
    ensures
        r.deep_view() == lines_in(b@),
{
    let n = b.len();
    let mut out: Vec<String> = Vec::new();
    let mut start: usize = 0;
    assert(b@.subrange(0, n as int) =~= b@);
    while start < n
        invariant
            start <= n,
            n == b@.len(),
            lines_in(b@) == out.deep_view() + lines_in(b@.subrange(start as int, n as int)),
        decreases n - start,
    {
        let ghost c = b@.subrange(start as int, n as int);
        let mut k: usize = start;
        while k < n && b[k] != 10u8
            invariant
                start <= k <= n,
                n == b@.len(),
                c == b@.subrange(start as int, n as int),
                newline_at(c, 0) == newline_at(c, k - start),
            decreases n - k,
        {
            assert(c[k - start] == b@[k as int]);
            k = k + 1;
        }
        proof {
            if k < n {
                assert(c[k - start] == b@[k as int]);
            }
            assert(newline_at(c, k - start) == k - start);
        }
        let mut seg: Vec<u8> = Vec::new();
        let mut j: usize = start;
        while j < k
            invariant
                start <= j <= k <= n,
                n == b@.len(),
                seg@ == b@.subrange(start as int, j as int),
            decreases k - j,
        {
            seg.push(b[j]);
            assert(seg@ =~= b@.subrange(start as int, j + 1));
            j = j + 1;
        }
        if k < n && seg.len() > 0 && seg[seg.len() - 1] == 13u8 {
            seg.pop();
        }
        let ghost line = seg@;
        proof {
            assert(b@.subrange(start as int, k as int) =~= c.subrange(0, k - start));
            if k < n {
                assert(line == strip_cr(c.subrange(0, k - start)));
                assert(c.subrange(k - start + 1, c.len() as int) =~= b@.subrange(k + 1, n as int));
                assert(raw_lines(c) == seq![line] + raw_lines(b@.subrange(k + 1, n as int)));
            } else {
                assert(c.subrange(0, k - start) =~= c);
                assert(raw_lines(c) == seq![line]);
                assert(b@.subrange(n as int, n as int) =~= Seq::<u8>::empty());
                assert(raw_lines(Seq::<u8>::empty()) =~= Seq::<Seq<u8>>::empty());
                assert(seq![line] =~= seq![line] + raw_lines(b@.subrange(n as int, n as int)));
            }
        }
        let ghost next: int = if k < n { k + 1 } else { n as int };
        let ghost tail = raw_lines(b@.subrange(next, n as int));
        assert(raw_lines(c) == seq![line] + tail);
        assert((seq![line] + tail).drop_first() =~= tail);
        assert((seq![line] + tail)[0] == line);
        let ghost before = out.deep_view();
        if seg.len() > 0 {
            match utf8_string(seg.as_slice()) {
                Some(s) => {
                    proof {
                        vstd::utf8::encode_utf8_decode_utf8(s@);
                    }
                    out.push(s);
                    assert(out.deep_view() =~= before + seq![decode_utf8(line)]);
                },
                None => {},
            }
        }
        start = if k < n { k + 1 } else { n };
    }
    assert(b@.subrange(n as int, n as int) =~= Seq::<u8>::empty());
    assert(raw_lines(Seq::<u8>::empty()) =~= Seq::<Seq<u8>>::empty());
    assert(text_lines(Seq::<Seq<u8>>::empty()) =~= Seq::<Seq<char>>::empty());
    assert(out.deep_view() + Seq::<Seq<char>>::empty() =~= out.deep_view());
    out
}

/// Watches one file for lines appended to it.
pub struct Watcher {
    path: String,
    position: u64,
}

impl View for Watcher {
    type V = (Seq<char>, u64);

    closed spec fn view(&self) -> (Seq<char>, u64) {
        (self.path@, self.position)
    }
}

impl Watcher {
    pub fn new(path: &str) -> (r: Watcher)
        ensures
            r@.0 == path@,
            r@.1 == 0,
    {
        Watcher { path: crate::trusted::string_of(crate::text::chars_of(path).as_slice()), position: 0 }
    }

    /// The file being watched.
    pub fn path(&self) -> (r: &str)
        ensures
            r@ == self@.0,
    {
        self.path.as_str()
    }

    /// How many bytes of the file have been read.
    pub fn position(&self) -> (r: u64)
        ensures
            r == self@.1,
    {
        self.position
    }

    /// Takes in the whole content of the file, read from its beginning: the position is its
    /// length, and its non-empty lines are returned.
    pub fn read_from_start(&mut self, content: &[u8]) -> (r: Vec<String>)
        requires
            content@.len() <= u64::MAX,
        ensures
            final(self)@.0 == old(self)@.0,
            final(self)@.1 == content@.len(),
            r.deep_view() == lines_in(content@),
    {
        self.position = content.len() as u64;
        lines_of(content)
    }

    /// Takes in the bytes added after the position: the position moves past them, and the
    /// non-empty lines they hold are returned.
    pub fn read_more(&mut self, added: &[u8]) -> (r: Vec<String>)
        requires
            old(self)@.1 + added@.len() <= u64::MAX,
        ensures
            final(self)@.0 == old(self)@.0,
            final(self)@.1 == old(self)@.1 + added@.len(),
            r.deep_view() == lines_in(added@),
    {
        self.position = self.position + added.len() as u64;
        lines_of(added)
    }

    /// Milliseconds to wait between two looks at the file.
    pub fn poll_interval() -> (r: u64)
        ensures
            r == 250,
    {
        250
    }
}

} // verus!
