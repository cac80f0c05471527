//! The chunked scanner: a fixed-capacity buffer that receives a byte stream
//! chunk by chunk and reports whether the pattern occurs anywhere in it,
//! including across chunk boundaries. Before each new chunk the trailing
//! `pattern.len() - 1` valid bytes are carried to the front of the buffer.
use crate::pattern::{contains_pattern, occurs_at, Pattern};
use vstd::prelude::*;
use vstd::slice::slice_subrange;

verus! {

/// The least capacity of a scan buffer.
pub const MIN_BUFFER_LEN: usize = 8192;

/// Capacity of the buffer used for a pattern of length `pattern_len`:
/// at least `MIN_BUFFER_LEN`, and room for the pattern plus one byte.
pub open spec fn capacity_for(pattern_len: nat) -> nat {
    if pattern_len + 1 > MIN_BUFFER_LEN {
        (pattern_len + 1) as nat
    } else {
        MIN_BUFFER_LEN as nat
    }
}

/// How many trailing bytes of the stream are carried into the next chunk.
pub open spec fn carry_len(pattern_len: nat, seen_len: nat) -> nat {
    if pattern_len - 1 < seen_len {
        (pattern_len - 1) as nat
    } else {
        seen_len
    }
}

/// The last `n` elements of `s`.
pub open spec fn tail(s: Seq<u8>, n: nat) -> Seq<u8> {
    s.subrange(s.len() - n, s.len() as int)
}

/// Computes the buffer capacity for a pattern of the given length.
pub fn buffer_len_for(pattern_len: usize) -> (r: usize)
    requires
        pattern_len < usize::MAX,
    ensures
        r == capacity_for(pattern_len as nat),
{
    if pattern_len + 1 > MIN_BUFFER_LEN {
        pattern_len + 1
    } else {
        MIN_BUFFER_LEN
    }
}

/// What the scanner has decided after a chunk.
#[derive(Debug, Clone, Copy, PartialEq, Eq, Structural)]
pub enum ScanStep {
    /// The pattern occurs in the bytes received so far; read no further.
    Matched,
    /// The stream ended (an empty chunk) without an occurrence.
    Exhausted,
    /// No occurrence yet; read the next chunk.
    NeedMore,
}

/// The state of one file's scan. It owns its buffer; the pattern is passed
/// to each call so that many scans can share it read-only.
pub struct ChunkScanner {
    buf: Vec<u8>,
    valid: usize,
    matched: bool,
    seen: Ghost<Seq<u8>>,
    pat: Ghost<Seq<u8>>,
}

impl ChunkScanner {
    /// The pattern this scan looks for.
    pub closed spec fn pattern(&self) -> Seq<u8> {
        self.pat@
    }

    /// Every byte received so far, in order.
    pub closed spec fn seen(&self) -> Seq<u8> {
        self.seen@
    }

    /// The pattern was found in the bytes received.
    pub closed spec fn is_matched(&self) -> bool {
        self.matched
    }

    /// The fixed capacity of the buffer.
    pub closed spec fn capacity(&self) -> nat {
        self.buf@.len()
    }

    /// How many bytes the next chunk may hold.
    pub closed spec fn room_spec(&self) -> nat {
        (self.buf@.len() - self.valid) as nat
    }

    /// The buffer has its fixed capacity, the verdict agrees with the bytes
    /// seen, and until a match the buffer's front holds the carried tail.
    pub closed spec fn wf(&self) -> bool {
        &&& 0 < self.pat@.len() < usize::MAX
        &&& self.buf@.len() == capacity_for(self.pat@.len())
        &&& self.matched == contains_pattern(self.seen@, self.pat@)
        &&& self.matched ==> self.valid == 0
        &&& !self.matched ==> self.valid == carry_len(self.pat@.len(), self.seen@.len())
        &&& !self.matched ==> self.buf@.subrange(0, self.valid as int) == tail(
            self.seen@,
            self.valid as nat,
        )
    }

    /// Starts the scan of one stream for `pattern`.
    pub fn new(pattern: &Pattern) -> (r: ChunkScanner)
        ensures
            r.wf(),
            r.pattern() == pattern@,
            r.seen() == Seq::<u8>::empty(),
            !r.is_matched(),
            r.capacity() == capacity_for(pattern@.len()),
    {
        let len = pattern.len();
        let cap = buffer_len_for(len);
        let buf: Vec<u8> = vec![0u8; cap];
        let r = ChunkScanner {
            buf,
            valid: 0,
            matched: false,
            seen: Ghost(Seq::empty()),
            pat: Ghost(pattern@),
        };
        proof {
            assert(!contains_pattern(Seq::<u8>::empty(), pattern@));
            assert(r.buf@.subrange(0, 0) =~= tail(Seq::<u8>::empty(), 0));
        }
        r
    }

    /// The largest chunk that the next call of `feed` accepts.
    pub fn room(&self) -> (r: usize)
        requires
            self.wf(),
        ensures
            r == self.room_spec(),
            r > 1,
    {
        self.buf.len() - self.valid
    }

    /// Receives the next chunk of the stream; an empty chunk marks its end.
    pub fn feed(&mut self, pattern: &Pattern, chunk: &[u8]) -> (r: ScanStep)
        requires
            old(self).wf(),
            pattern@ == old(self).pattern(),
            chunk@.len() <= old(self).room_spec(),
        ensures
            final(self).wf(),
            final(self).pattern() == old(self).pattern(),
            final(self).capacity() == old(self).capacity(),
            old(self).is_matched() || chunk@.len() == 0 ==> final(self).seen() == old(
                self,
            ).seen(),
            !old(self).is_matched() && chunk@.len() > 0 ==> final(self).seen() == old(
                self,
            ).seen() + chunk@,
            final(self).is_matched() == contains_pattern(final(self).seen(), pattern@),
            !old(self).is_matched() && chunk@.len() == 0 ==> r == ScanStep::Exhausted,
            r == (if final(self).is_matched() {
                ScanStep::Matched
            } else if chunk@.len() == 0 {
                ScanStep::Exhausted
            } else {
                ScanStep::NeedMore
            }),
    {
        if self.matched {
            return ScanStep::Matched;
        }
        let n = chunk.len();
        if n == 0 {
            return ScanStep::Exhausted;
        }
        let plen = pattern.len();
        let start = self.valid;
        let ghost old_buf = self.buf@;
        let ghost old_seen = self.seen@;
        let ghost carried = tail(old_seen, start as nat);
        copy_in(&mut self.buf, start, chunk);
        let end = start + n;
        proof {
            assert(self.buf@.subrange(0, end as int) =~= carried + chunk@);
            lemma_carry(old_seen, chunk@, pattern@);
            self.seen@ = old_seen + chunk@;
        }
        if find_in(&self.buf, end, pattern.as_bytes()) {
            self.matched = true;
            self.valid = 0;
            return ScanStep::Matched;
        }
        let keep: usize = if plen - 1 < end {
            plen - 1
        } else {
            end
        };
        let ghost window = self.buf@.subrange(0, end as int);
        move_to_front(&mut self.buf, end - keep, keep);
        self.valid = keep;
        proof {
            let s = self.seen@;
            assert(keep == carry_len(plen as nat, s.len()));
            assert(self.buf@.subrange(0, keep as int) =~= window.subrange(
                end - keep,
                end as int,
            ));
            assert(window =~= s.subrange(s.len() - end, s.len() as int));
            assert(window.subrange(end - keep, end as int) =~= tail(s, keep as nat));
        }
        ScanStep::NeedMore
    }
}

/// Scans `data` as a stream, handing the scanner chunks as large as its
/// buffer takes; the result is whether `pattern` occurs in `data`.
pub fn scan_bytes(pattern: &Pattern, data: &[u8]) -> (r: bool)
    ensures
        r == contains_pattern(data@, pattern@),
{
    let mut scanner = ChunkScanner::new(pattern);
    let len = data.len();
    let mut pos: usize = 0;
    loop
        invariant
            scanner.wf(),
            scanner.pattern() == pattern@,
            !scanner.is_matched(),
            pos <= len,
            len == data@.len(),
            scanner.seen() == data@.subrange(0, pos as int),
        decreases len - pos,
    {
        let room = scanner.room();
        let n = if len - pos < room {
            len - pos
        } else {
            room
        };
        let chunk = slice_subrange(data, pos, pos + n);
        match scanner.feed(pattern, chunk) {
            ScanStep::Matched => {
                proof {
                    assert(data@.subrange(0, pos as int) + chunk@ =~= data@.subrange(0, pos + n));
                    lemma_contains_prefix(data@, (pos + n) as nat, pattern@);
                }
                return true;
            },
            ScanStep::Exhausted => {
                assert(data@.subrange(0, pos as int) =~= data@);
                return false;
            },
            ScanStep::NeedMore => {
                assert(data@.subrange(0, pos as int) + chunk@ =~= data@.subrange(0, pos + n));
                pos = pos + n;
            },
        }
    }
}

/// An occurrence that starts `k` bytes before the end of the first buffer,
/// for `1 <= k < pat.len()`, and so straddles the first chunk boundary, makes
/// the stream match: `scan_bytes` then returns true.
pub proof fn lemma_straddling_match_found(data: Seq<u8>, pat: Seq<u8>, k: int)
    requires
        0 < pat.len() < usize::MAX,
        1 <= k < pat.len(),
        occurs_at(data, pat, capacity_for(pat.len()) - k),
    ensures
        contains_pattern(data, pat),
{
}

/// A stream shorter than the pattern, the empty one included, holds no
/// occurrence of it: `scan_bytes` then returns false.
pub proof fn lemma_shorter_than_pattern(data: Seq<u8>, pat: Seq<u8>)
    requires
        data.len() < pat.len(),
    ensures
        !contains_pattern(data, pat),
{
}

/// An occurrence in a prefix of `data` is an occurrence in `data`.
proof fn lemma_contains_prefix(data: Seq<u8>, n: nat, pat: Seq<u8>)
    requires
        n <= data.len(),
        contains_pattern(data.subrange(0, n as int), pat),
    ensures
        contains_pattern(data, pat),
{
    let pre = data.subrange(0, n as int);
    let i = choose|i: int| occurs_at(pre, pat, i);
    assert(pre.subrange(i, i + pat.len()) =~= data.subrange(i, i + pat.len()));
    assert(occurs_at(data, pat, i));
}

/// Writes `chunk` into `buf` at `start`, leaving the other bytes as they were.
fn copy_in(buf: &mut Vec<u8>, start: usize, chunk: &[u8])
    requires
        start + chunk@.len() <= old(buf)@.len(),
    ensures
        final(buf)@.len() == old(buf)@.len(),
        final(buf)@.subrange(0, start as int) == old(buf)@.subrange(0, start as int),
        final(buf)@.subrange(start as int, start + chunk@.len()) == chunk@,
{
    let n = chunk.len();
    let blen = buf.len();
    let mut i: usize = 0;
    while i < n
        invariant
            i <= n,
            n == chunk@.len(),
            start + n <= blen,
            blen == buf@.len(),
            buf@.len() == old(buf)@.len(),
            forall|k: int| 0 <= k < start ==> buf@[k] == old(buf)@[k],
            forall|k: int| 0 <= k < i ==> buf@[start + k] == chunk@[k],
        decreases n - i,
    {
        buf.set(start + i, chunk[i]);
        i = i + 1;
    }
    assert(buf@.subrange(0, start as int) =~= old(buf)@.subrange(0, start as int));
    assert(buf@.subrange(start as int, start + n) =~= chunk@);
}

/// Copies the `len` bytes at `from` to the front of `buf`.
fn move_to_front(buf: &mut Vec<u8>, from: usize, len: usize)
    requires
        from + len <= old(buf)@.len(),
    ensures
        final(buf)@.len() == old(buf)@.len(),
        final(buf)@.subrange(0, len as int) == old(buf)@.subrange(from as int, from + len),
{
    let blen = buf.len();
    let mut i: usize = 0;
    while i < len
        invariant
            i <= len,
            from + len <= blen,
            blen == buf@.len(),
            buf@.len() == old(buf)@.len(),
            forall|k: int| 0 <= k < i ==> buf@[k] == old(buf)@[from + k],
            forall|k: int| i <= k < buf@.len() ==> buf@[k] == old(buf)@[k],
        decreases len - i,
    {
        let b = buf[from + i];
        buf.set(i, b);
        i = i + 1;
    }
    assert(buf@.subrange(0, len as int) =~= old(buf)@.subrange(from as int, from + len));
}

/// Tells whether `pattern` equals the bytes of `buf` starting at `at`.
fn window_matches(buf: &Vec<u8>, at: usize, pattern: &[u8]) -> (r: bool)
    requires
        at + pattern@.len() <= buf@.len(),
    ensures
        r == (buf@.subrange(at as int, at + pattern@.len()) == pattern@),
{
    let n = pattern.len();
    let blen = buf.len();
    let mut i: usize = 0;
    while i < n
        invariant
            i <= n,
            n == pattern@.len(),
            at + n <= blen,
            blen == buf@.len(),
            forall|k: int| 0 <= k < i ==> buf@[at + k] == pattern@[k],
        decreases n - i,
    {
        if buf[at + i] != pattern[i] {
            assert(buf@.subrange(at as int, at + n)[i as int] != pattern@[i as int]);
            return false;
        }
        i = i + 1;
    }
    assert(buf@.subrange(at as int, at + n) =~= pattern@);
    true
}

/// Tells whether `pattern` occurs in the first `valid` bytes of `buf`,
/// trying each window of the pattern's length that lies wholly among them.
fn find_in(buf: &Vec<u8>, valid: usize, pattern: &[u8]) -> (r: bool)
    requires
        valid <= buf@.len(),
        pattern@.len() > 0,
    ensures
        r == contains_pattern(buf@.subrange(0, valid as int), pattern@),
{
    let ghost region = buf@.subrange(0, valid as int);
    let n = pattern.len();
    if n > valid {
        proof {
            assert forall|i: int| !occurs_at(region, pattern@, i) by {}
        }
        return false;
    }
    let last = valid - n;
    let mut i: usize = 0;
    while i <= last
        invariant
            n == pattern@.len(),
            n > 0,
            last + n == valid,
            valid <= buf@.len(),
            region == buf@.subrange(0, valid as int),
            forall|j: int| 0 <= j < i ==> !occurs_at(region, pattern@, j),
        decreases last + 1 - i,
    {
        if window_matches(buf, i, pattern) {
            assert(region.subrange(i as int, i + n) =~= buf@.subrange(i as int, i + n));
            assert(occurs_at(region, pattern@, i as int));
            return true;
        }
        assert(region.subrange(i as int, i + n) =~= buf@.subrange(i as int, i + n));
        i = i + 1;
    }
    false
}

/// Once the stream so far holds no occurrence, an occurrence in the stream
/// extended by `chunk` lies within the carried tail followed by `chunk`.
proof fn lemma_carry(seen: Seq<u8>, chunk: Seq<u8>, pat: Seq<u8>)
    requires
        pat.len() > 0,
        !contains_pattern(seen, pat),
    ensures
        contains_pattern(seen + chunk, pat) == contains_pattern(
            tail(seen, carry_len(pat.len(), seen.len())) + chunk,
            pat,
        ),
{
    let keep = carry_len(pat.len(), seen.len());
    let off = seen.len() - keep;
    let full = seen + chunk;
    let win = tail(seen, keep) + chunk;
    let l = pat.len();
    assert(win =~= full.subrange(off, full.len() as int));
    if contains_pattern(full, pat) {
        let i = choose|i: int| occurs_at(full, pat, i);
        if i + l <= seen.len() {
            assert(full.subrange(i, i + l) =~= seen.subrange(i, i + l));
            assert(occurs_at(seen, pat, i));
        }
        assert(win.subrange(i - off, i - off + l) =~= full.subrange(i, i + l));
        assert(occurs_at(win, pat, i - off));
    }
    if contains_pattern(win, pat) {
        let j = choose|j: int| occurs_at(win, pat, j);
        assert(win.subrange(j, j + l) =~= full.subrange(j + off, j + off + l));
        assert(occurs_at(full, pat, j + off));
    }
}

} // verus!
