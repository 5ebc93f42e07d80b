//! Gap-buffer text storage with a lazily rebuilt line-start index.

use vstd::prelude::*;
use vstd::string::StringSliceAdditionalSpecFns;
use vstd::utf8::{decode_utf8, encode_utf8, encode_utf8_decode_utf8, encode_utf8_valid_utf8, valid_utf8};

verus! {

/// The byte that ends a line.
pub const NEWLINE: u8 = 10;

/// The byte that may precede a newline.
pub const CARRIAGE_RETURN: u8 = 13;

/// The `i`th line start: 0, then every offset that follows a newline.
pub open spec fn line_starts_of(text: Seq<u8>) -> Seq<usize>
    decreases text.len(),
{
    if text.len() == 0 {
        seq![0usize]
    } else {
        let before = line_starts_of(text.drop_last());
        if text.last() == NEWLINE {
            before.push(text.len() as usize)
        } else {
            before
        }
    }
}

/// Number of newline bytes in `text`.
pub open spec fn newline_count(text: Seq<u8>) -> nat
    decreases text.len(),
{
    if text.len() == 0 {
        0
    } else {
        newline_count(text.drop_last()) + if text.last() == NEWLINE {
            1nat
        } else {
            0nat
        }
    }
}

/// End of line `line`: the start of the next line, or the end of the text.
pub open spec fn line_end_of(text: Seq<u8>, line: int) -> int {
    if line + 1 < line_starts_of(text).len() {
        line_starts_of(text)[line + 1] as int
    } else {
        text.len() as int
    }
}

/// `text` without its trailing run of `c` bytes.
pub open spec fn strip_trailing(text: Seq<u8>, c: u8) -> Seq<u8>
    decreases text.len(),
{
    if text.len() > 0 && text.last() == c {
        strip_trailing(text.drop_last(), c)
    } else {
        text
    }
}

/// A line without its trailing newlines, then without its trailing carriage returns.
pub open spec fn trim_line_end(line: Seq<u8>) -> Seq<u8> {
    strip_trailing(strip_trailing(line, NEWLINE), CARRIAGE_RETURN)
}

/// The characters that `bytes` encode, or none if they are not valid UTF-8.
pub open spec fn text_of(bytes: Seq<u8>) -> Seq<char> {
    if valid_utf8(bytes) {
        decode_utf8(bytes)
    } else {
        Seq::empty()
    }
}

/// Line starts begin at 0, rise strictly, stay within the text, and number
/// one more than the newlines.
pub proof fn lemma_line_starts(text: Seq<u8>)
    requires
        text.len() <= usize::MAX,
    ensures
        line_starts_of(text).len() == newline_count(text) + 1,
        line_starts_of(text)[0] == 0,
        forall|i: int, j: int|
            0 <= i < j < line_starts_of(text).len() ==> line_starts_of(text)[i] < line_starts_of(
                text,
            )[j],
        forall|i: int| 0 <= i < line_starts_of(text).len() ==> line_starts_of(text)[i] <= text.len(),
    decreases text.len(),
{
    if text.len() > 0 {
        lemma_line_starts(text.drop_last());
    }
}

/// Byte offset of `(line, col)` in `text`: the line's start plus the
/// column, clamped to the line; the end of the text past the last line.
pub open spec fn byte_of_line_col(text: Seq<u8>, line: int, col: int) -> int {
    if line >= line_starts_of(text).len() {
        text.len() as int
    } else {
        let start = line_starts_of(text)[line] as int;
        let end = line_end_of(text, line);
        start + if col < end - start {
            col
        } else {
            end - start
        }
    }
}

/// Round trip: a store made from a text gives back that text.
pub proof fn from_then_as_str(text: Seq<char>)
    ensures
        text_of(encode_utf8(text)) == text,
{
    encode_utf8_valid_utf8(text);
    encode_utf8_decode_utf8(text);
}

/// Insert/delete inverse: inserting `s` at `p` and then deleting
/// `[p, p + len(s))` restores the original text.
pub proof fn insert_then_delete(text: Seq<u8>, p: int, s: Seq<u8>)
    requires
        0 <= p <= text.len(),
    ensures
        delete_bytes(insert_bytes(text, p, s), p, p + s.len()) == text,
{
    let t = insert_bytes(text, p, s);
    if s.len() > 0 {
        assert(t.take(p) =~= text.take(p));
        assert(t.skip(p + s.len()) =~= text.skip(p));
        assert(t.take(p) + t.skip(p + s.len()) =~= text);
    }
}

/// Line accounting: a text with k newlines has k + 1 lines, and line 0,
/// column 0 is byte 0.
pub proof fn line_accounting(text: Seq<u8>)
    requires
        text.len() <= usize::MAX,
    ensures
        line_starts_of(text).len() == newline_count(text) + 1,
        byte_of_line_col(text, 0, 0) == 0,
{
    lemma_line_starts(text);
}

/// Relies on `String::from_utf8`: the bytes become a string exactly when
/// they are valid UTF-8, and the string holds the characters they encode.
#[verifier::external_body]
fn utf8_string(bytes: Vec<u8>) -> (r: Option<String>)
    ensures
        r is Some <==> valid_utf8(bytes@),
        r matches Some(s) ==> s@ == decode_utf8(bytes@),
{
    String::from_utf8(bytes).ok()
}

/// The string that `bytes` encode, or an empty string if they are not valid UTF-8.
fn string_of(bytes: Vec<u8>) -> (r: String)
    ensures
        r@ == text_of(bytes@),
{
    match utf8_string(bytes) {
        Some(s) => s,
        None => String::new(),
    }
}

/// Drops the trailing run of `c` bytes from `bytes`.
fn pop_trailing(bytes: &mut Vec<u8>, c: u8)
    ensures
        final(bytes)@ == strip_trailing(old(bytes)@, c),
{
    while bytes.len() > 0 && bytes[bytes.len() - 1] == c
        invariant
            strip_trailing(bytes@, c) == strip_trailing(old(bytes)@, c),
        decreases bytes@.len(),
    {
        let ghost before = bytes@;
        bytes.pop();
        assert(bytes@ =~= before.drop_last());
    }
}

/// Index of the line holding `offset`: the last start at or before it.
fn find_line(starts: &Vec<usize>, offset: usize) -> (r: usize)
    requires
        starts@.len() >= 1,
        starts@[0] == 0,
        forall|i: int, j: int| 0 <= i < j < starts@.len() ==> starts@[i] < starts@[j],
    ensures
        r < starts@.len(),
        starts@[r as int] <= offset,
        r + 1 < starts@.len() ==> offset < starts@[r + 1],
{
    let mut lo: usize = 0;
    let mut hi: usize = starts.len();
    while lo + 1 < hi
        invariant
            lo < hi <= starts@.len(),
            starts@[lo as int] <= offset,
            hi < starts@.len() ==> offset < starts@[hi as int],
        decreases hi - lo,
    {
        let mid = lo + (hi - lo) / 2;
        if starts[mid] <= offset {
            lo = mid;
        } else {
            hi = mid;
        }
    }
    lo
}

/// `text` with `inserted` placed at `pos`; a `pos` past the end means the end.
pub open spec fn insert_bytes(text: Seq<u8>, pos: int, inserted: Seq<u8>) -> Seq<u8> {
    let at = if pos < text.len() { pos } else { text.len() as int };
    text.take(at) + inserted + text.skip(at)
}

/// `text` without the bytes of `[start, end)`, both ends clamped to the text;
/// unchanged when `start >= end`.
pub open spec fn delete_bytes(text: Seq<u8>, start: int, end: int) -> Seq<u8> {
    if start >= end {
        text
    } else {
        let s = if start < text.len() { start } else { text.len() as int };
        let e = if end < text.len() { end } else { text.len() as int };
        text.take(s) + text.skip(e)
    }
}

/// `[start, end)` of `text` replaced by `inserted`: a deletion, then an
/// insertion at `start`.
pub open spec fn replace_bytes(text: Seq<u8>, start: int, end: int, inserted: Seq<u8>) -> Seq<u8> {
    insert_bytes(delete_bytes(text, start, end), start, inserted)
}

/// How many bytes a gap of `gap` bytes in a store of `capacity` bytes grows
/// by to take `needed` bytes (`needed > gap`): what is missing, or half the
/// capacity if that is more and still fits in memory.
pub open spec fn gap_growth(capacity: nat, gap: nat, needed: nat) -> nat {
    let missing = (needed - gap) as nat;
    let half = capacity / 2;
    let wanted = if missing > half { missing } else { half };
    if capacity + wanted <= usize::MAX { wanted } else { missing }
}

/// Number of times the gap grows while `n` more bytes are typed one at a
/// time into a store of `capacity` bytes holding `len` bytes: a byte that
/// finds the gap empty makes it grow as `insert` does.
pub open spec fn typing_growths(capacity: nat, len: nat, n: nat) -> nat
    decreases n,
{
    if n == 0 {
        0
    } else if len < capacity {
        typing_growths(capacity, len + 1, (n - 1) as nat)
    } else {
        1 + typing_growths(capacity + gap_growth(capacity, 0, 1), len + 1, (n - 1) as nat)
    }
}

/// Capacity after a growth that finds the gap empty, far from the memory limit.
pub open spec fn next_capacity(c: nat) -> nat {
    c + if c / 2 > 1 {
        c / 2
    } else {
        1
    }
}

/// Growths while the text grows from `c` bytes, with an empty gap, to `n`.
pub open spec fn growths_until(c: nat, n: nat) -> nat
    decreases (if c < n {
        n - c
    } else {
        0
    }),
{
    if c < n {
        1 + growths_until(next_capacity(c), n)
    } else {
        0
    }
}

/// The floor of the base-2 logarithm of `n`, 0 for `n < 2`.
pub open spec fn log2(n: nat) -> nat
    decreases n,
{
    if n < 2 {
        0
    } else {
        1 + log2(n / 2)
    }
}

/// 2 to the power `k`.
pub open spec fn pow2(k: nat) -> nat
    decreases k,
{
    if k == 0 {
        1
    } else {
        2 * pow2((k - 1) as nat)
    }
}

proof fn lemma_log2_bound(n: nat)
    ensures
        pow2(log2(n) + 1) >= n + 1,
    decreases n,
{
    assert(pow2(0) == 1);
    assert(pow2(1) == 2 * pow2(0));
    if n >= 2 {
        lemma_log2_bound(n / 2);
        assert(pow2(log2(n) + 1) == 2 * pow2(log2(n / 2) + 1));
    }
}

/// Typing counts one growth each time the text reaches the capacity.
proof fn lemma_typing_growths(capacity: nat, len: nat, n: nat)
    requires
        len <= capacity,
        len + n <= usize::MAX / 2,
    ensures
        typing_growths(capacity, len, n) == growths_until(capacity, len + n),
    decreases n,
{
    if n > 0 {
        if len < capacity {
            lemma_typing_growths(capacity, len + 1, (n - 1) as nat);
        } else {
            assert(gap_growth(capacity, 0, 1) == next_capacity(capacity) - capacity);
            lemma_typing_growths(next_capacity(capacity), len + 1, (n - 1) as nat);
        }
    }
}

/// Starting from a larger capacity never takes more growths.
proof fn lemma_growths_antitone(c1: nat, c2: nat, n: nat)
    requires
        c1 <= c2,
    ensures
        growths_until(c2, n) <= growths_until(c1, n),
    decreases (if c1 < n {
        n - c1
    } else {
        0
    }),
{
    if c1 < n && c2 < n {
        lemma_growths_antitone(next_capacity(c1), next_capacity(c2), n);
    }
}

/// Two growths at least double a capacity of 2 or more.
proof fn lemma_two_growths_double(c: nat)
    requires
        c >= 2,
    ensures
        next_capacity(next_capacity(c)) >= 2 * c,
{
}

/// From a capacity `c >= 2` with `2^j * c >= n`, at most `2j` growths.
proof fn lemma_growths_bound(c: nat, n: nat, j: nat)
    requires
        c >= 2,
        pow2(j) * c >= n,
    ensures
        growths_until(c, n) <= 2 * j,
    decreases j,
{
    assert(pow2(0) == 1);
    if c < n {
        if j == 0 {
            assert(pow2(j) == 1);
            assert(pow2(j) * c == c) by (nonlinear_arith)
                requires
                    pow2(j) == 1,
            ;
        }
        lemma_two_growths_double(c);
        let cc = next_capacity(next_capacity(c));
        assert(growths_until(c, n) == 1 + growths_until(next_capacity(c), n));
        assert(growths_until(next_capacity(c), n) <= 1 + growths_until(cc, n));
        assert(pow2((j - 1) as nat) * (2 * c) >= n) by (nonlinear_arith)
            requires
                pow2(j) * c >= n,
                pow2(j) == 2 * pow2((j - 1) as nat),
        ;
        lemma_growths_bound(2 * c, n, (j - 1) as nat);
        lemma_growths_antitone(2 * c, cc, n);
    }
}

/// Gap amortization: typing `n` bytes one at a time into an empty store, each
/// right after the last, makes the gap grow at most `2 log2(n) + 3` times,
/// since every growth adds half the capacity. (Near the memory limit a growth
/// takes only what is missing, hence the bound on `n`.)
pub proof fn typing_grows_gap_logarithmically(n: nat)
    requires
        n <= usize::MAX / 2,
    ensures
        typing_growths(0, 0, n) <= 2 * log2(n) + 3,
{
    lemma_typing_growths(0, 0, n);
    if n > 1 {
        lemma_log2_bound(n);
        let j = log2(n);
        assert(pow2(j + 1) == 2 * pow2(j));
        lemma_growths_bound(2, n, j);
        assert(growths_until(0, n) == 1 + growths_until(1, n));
        assert(growths_until(1, n) == 1 + growths_until(2, n));
    }
}

/// A text store that keeps one unused region, the gap, at the editing point.
///
/// `storage[..gap_start]` holds the text before the gap and
/// `storage[gap_end..]` the text after it.
pub struct TextBuffer {
    storage: Vec<u8>,
    gap_start: usize,
    gap_end: usize,
    line_starts: Vec<usize>,
    line_cache_dirty: bool,
}

impl View for TextBuffer {
    type V = Seq<u8>;

    /// The logical text: the bytes on both sides of the gap, in order.
    closed spec fn view(&self) -> Seq<u8> {
        self.storage@.subrange(0, self.gap_start as int) + self.storage@.subrange(
            self.gap_end as int,
            self.storage@.len() as int,
        )
    }
}

impl TextBuffer {
    /// The internal invariant of the store.
    pub closed spec fn wf(&self) -> bool {
        &&& self.gap_start <= self.gap_end <= self.storage@.len()
        &&& self.storage@.len() <= usize::MAX
        &&& !self.line_cache_dirty ==> self.line_starts@ == line_starts_of(self@)
    }

    /// The text of a well-formed store fits in memory, and the gap is the
    /// capacity that the text leaves free.
    pub proof fn lemma_fits(&self)
        requires
            self.wf(),
        ensures
            self@.len() <= usize::MAX,
            self.gap_len() == self.capacity() - self@.len(),
    {
    }

    /// Bytes allocated for text and gap together.
    pub fn allocated(&self) -> (r: usize)
        ensures
            r == self.capacity(),
    {
        self.storage.len()
    }

    /// Bytes allocated for text and gap together.
    pub closed spec fn capacity(&self) -> nat {
        self.storage@.len()
    }

    /// Bytes in the gap.
    pub closed spec fn gap_len(&self) -> nat {
        (self.gap_end - self.gap_start) as nat
    }

    /// An empty store.
    pub fn new() -> (r: Self)
        ensures
            r.wf(),
            r@ == Seq::<u8>::empty(),
            r.capacity() == 0,
    {
        let r = TextBuffer {
            storage: Vec::new(),
            gap_start: 0,
            gap_end: 0,
            line_starts: vec![0],
            line_cache_dirty: false,
        };
        assert(r@ =~= Seq::<u8>::empty());
        assert(r.line_starts@ =~= line_starts_of(r@));
        r
    }

    /// Moves the gap so that it starts at logical offset `pos`.
    fn move_gap(&mut self, pos: usize)
        requires
            old(self).wf(),
            pos <= old(self)@.len(),
        ensures
            final(self).wf(),
            final(self)@ == old(self)@,
            final(self).gap_start == pos,
            final(self).storage@.len() == old(self).storage@.len(),
            final(self).gap_end - final(self).gap_start == old(self).gap_end - old(self).gap_start,
            final(self).line_starts == old(self).line_starts,
            final(self).line_cache_dirty == old(self).line_cache_dirty,
    {
        let ghost s0 = self.storage@;
        let cap = self.storage.len();
        if pos < self.gap_start {
            // The bytes of [pos, gap_start) go to the end of the gap, last byte first.
            let move_len = self.gap_start - pos;
            let dst = self.gap_end - move_len;
            let mut k = move_len;
            while k > 0
                invariant
                    k <= move_len,
                    move_len == self.gap_start - pos,
                    dst == self.gap_end - move_len,
                    pos <= dst,
                    self.gap_start == old(self).gap_start,
                    self.gap_end == old(self).gap_end,
                    self.line_starts == old(self).line_starts,
                    self.line_cache_dirty == old(self).line_cache_dirty,
                    self.gap_end <= s0.len(),
                    self.storage@.len() == s0.len(),
                    forall|i: int|
                        0 <= i < s0.len() ==> self.storage@[i] == (if dst + k <= i < dst + move_len {
                            s0[i - dst + pos]
                        } else {
                            s0[i]
                        }),
                decreases k,
            {
                k = k - 1;
                let b = self.storage[pos + k];
                self.storage[dst + k] = b;
            }
            self.gap_start = pos;
            self.gap_end = dst;
            assert(self@ =~= old(self)@);
        } else if pos > self.gap_start {
            // The bytes of [gap_end, gap_end + move_len) go to the start of the gap.
            let move_len = pos - self.gap_start;
            let src = self.gap_end;
            let dst = self.gap_start;
            let mut k: usize = 0;
            while k < move_len
                invariant
                    k <= move_len,
                    move_len == pos - self.gap_start,
                    src == self.gap_end,
                    dst == self.gap_start,
                    src + move_len <= s0.len(),
                    dst + move_len <= s0.len(),
                    dst <= src,
                    s0.len() == cap,
                    self.gap_start == old(self).gap_start,
                    self.gap_end == old(self).gap_end,
                    self.line_starts == old(self).line_starts,
                    self.line_cache_dirty == old(self).line_cache_dirty,
                    self.storage@.len() == s0.len(),
                    forall|i: int|
                        0 <= i < s0.len() ==> self.storage@[i] == (if dst <= i < dst + k {
                            s0[i - dst + src]
                        } else {
                            s0[i]
                        }),
                decreases move_len - k,
            {
                let b = self.storage[src + k];
                self.storage[dst + k] = b;
                k = k + 1;
            }
            self.gap_start = dst + move_len;
            self.gap_end = src + move_len;
            assert(self@ =~= old(self)@);
        }
    }

    /// Widens the gap by `additional` bytes, keeping the text on both sides.
    fn grow_gap(&mut self, additional: usize)
        requires
            old(self).wf(),
            old(self).storage@.len() + additional <= usize::MAX,
        ensures
            final(self).wf(),
            final(self)@ == old(self)@,
            final(self).gap_start == old(self).gap_start,
            final(self).gap_end == old(self).gap_end + additional,
            final(self).storage@.len() == old(self).storage@.len() + additional,
            final(self).line_starts == old(self).line_starts,
            final(self).line_cache_dirty == old(self).line_cache_dirty,
    {
        let ghost s0 = self.storage@;
        let old_len = self.storage.len();
        let mut i: usize = 0;
        while i < additional
            invariant
                i <= additional,
                old_len == s0.len(),
                old_len + additional <= usize::MAX,
                self.storage@.len() == old_len + i,
                self.storage@.subrange(0, old_len as int) == s0,
                self.gap_start == old(self).gap_start,
                self.gap_end == old(self).gap_end,
                self.line_starts == old(self).line_starts,
                self.line_cache_dirty == old(self).line_cache_dirty,
            decreases additional - i,
        {
            self.storage.push(0);
            i = i + 1;
            assert(self.storage@.subrange(0, old_len as int) =~= s0);
        }
        let ghost s1 = self.storage@;
        assert forall|j: int| 0 <= j < old_len implies s1[j] == s0[j] by {
            assert(s1.subrange(0, old_len as int)[j] == s1[j]);
        }
        // The text after the gap moves right by `additional`, last byte first.
        let tail = old_len - self.gap_end;
        let src = self.gap_end;
        let mut k = tail;
        while k > 0
            invariant
                k <= tail,
                tail == old_len - src,
                src == self.gap_end,
                old_len + additional == s1.len(),
                s1.len() <= usize::MAX,
                self.storage@.len() == s1.len(),
                self.gap_start == old(self).gap_start,
                self.gap_end == old(self).gap_end,
                self.line_starts == old(self).line_starts,
                self.line_cache_dirty == old(self).line_cache_dirty,
                forall|i: int|
                    0 <= i < s1.len() ==> self.storage@[i] == (if src + additional + k <= i < src
                        + additional + tail {
                        s1[i - additional]
                    } else {
                        s1[i]
                    }),
            decreases k,
        {
            k = k - 1;
            let b = self.storage[src + k];
            self.storage[src + additional + k] = b;
        }
        self.gap_end = src + additional;
        assert(self@ =~= old(self)@);
    }

    /// Byte `i` of the text.
    fn byte_at(&self, i: usize) -> (r: u8)
        requires
            self.wf(),
            i < self@.len(),
        ensures
            r == self@[i as int],
    {
        if i < self.gap_start {
            self.storage[i]
        } else {
            self.storage[i + (self.gap_end - self.gap_start)]
        }
    }

    /// The bytes of `[start, end)` of the text.
    fn bytes_between(&self, start: usize, end: usize) -> (r: Vec<u8>)
        requires
            self.wf(),
            start <= end <= self@.len(),
        ensures
            r@ == self@.subrange(start as int, end as int),
    {
        let mut r: Vec<u8> = Vec::new();
        let mut i = start;
        while i < end
            invariant
                self.wf(),
                start <= i <= end <= self@.len(),
                r@ == self@.subrange(start as int, i as int),
            decreases end - i,
        {
            let b = self.byte_at(i);
            r.push(b);
            i = i + 1;
            assert(r@ =~= self@.subrange(start as int, i as int));
        }
        r
    }

    /// Recomputes the line starts by scanning the text for newlines.
    fn rebuild_line_cache(&mut self)
        requires
            old(self).wf(),
        ensures
            final(self).wf(),
            final(self)@ == old(self)@,
            !final(self).line_cache_dirty,
            final(self).storage@.len() == old(self).storage@.len(),
    {
        self.line_starts.clear();
        self.line_starts.push(0);
        self.line_cache_dirty = true;
        let len = self.len();
        assert(self@.take(0) =~= Seq::<u8>::empty());
        assert(self.line_starts@ =~= line_starts_of(self@.take(0)));
        let mut i: usize = 0;
        while i < len
            invariant
                self.wf(),
                self@ == old(self)@,
                self.storage@.len() == old(self).storage@.len(),
                len == self@.len(),
                i <= len,
                self.line_cache_dirty,
                self.line_starts@ == line_starts_of(self@.take(i as int)),
            decreases len - i,
        {
            let b = self.byte_at(i);
            assert(self@.take(i as int + 1).drop_last() =~= self@.take(i as int));
            if b == NEWLINE {
                self.line_starts.push(i + 1);
            }
            i = i + 1;
        }
        assert(self@.take(len as int) =~= self@);
        self.line_cache_dirty = false;
    }

    /// Rebuilds the line starts if an edit has made them stale.
    fn rebuild_line_cache_if_needed(&mut self)
        requires
            old(self).wf(),
        ensures
            final(self).wf(),
            final(self)@ == old(self)@,
            !final(self).line_cache_dirty,
            final(self).line_starts@ == line_starts_of(final(self)@),
            final(self).storage@.len() == old(self).storage@.len(),
    {
        if self.line_cache_dirty {
            self.rebuild_line_cache();
        }
    }

    /// A store that holds `text`, with the gap at its end.
    pub fn from(text: &str) -> (r: Self)
        ensures
            r.wf(),
            r@ == text.spec_bytes(),
    {
        let bytes = vstd::slice::slice_to_vec(text.as_bytes());
        let len = bytes.len();
        let mut buffer = TextBuffer {
            storage: bytes,
            gap_start: len,
            gap_end: len,
            line_starts: vec![0],
            line_cache_dirty: true,
        };
        assert(buffer@ =~= text.spec_bytes());
        buffer.rebuild_line_cache();
        buffer
    }

    /// The text as a string: the bytes before the gap, then those after it,
    /// decoded as UTF-8 (an empty string if they are not valid UTF-8).
    pub fn as_str(&self) -> (r: String)
        requires
            self.wf(),
        ensures
            r@ == text_of(self@),
    {
        let bytes = self.bytes_between(0, self.len());
        assert(bytes@ =~= self@);
        string_of(bytes)
    }

    /// Line and column (both from 0) of byte offset `byte_index`. An offset
    /// past the end falls in the last line.
    pub fn line_col_from_byte_index(&mut self, byte_index: usize) -> (r: (usize, usize))
        requires
            old(self).wf(),
        ensures
            final(self).wf(),
            final(self)@ == old(self)@,
            r.0 < line_starts_of(old(self)@).len(),
            line_starts_of(old(self)@)[r.0 as int] <= byte_index,
            r.0 + 1 < line_starts_of(old(self)@).len() ==> byte_index < line_starts_of(
                old(self)@,
            )[r.0 + 1],
            r.1 == byte_index - line_starts_of(old(self)@)[r.0 as int],
    {
        self.rebuild_line_cache_if_needed();
        proof {
            lemma_line_starts(self@);
        }
        let line = find_line(&self.line_starts, byte_index);
        let line_start = self.line_starts[line];
        (line, byte_index - line_start)
    }

    /// The same as `line_col_from_byte_index`.
    pub fn line_col_from_byte_index_mut(&mut self, byte_index: usize) -> (r: (usize, usize))
        requires
            old(self).wf(),
        ensures
            final(self).wf(),
            final(self)@ == old(self)@,
            r.0 < line_starts_of(old(self)@).len(),
            line_starts_of(old(self)@)[r.0 as int] <= byte_index,
            r.0 + 1 < line_starts_of(old(self)@).len() ==> byte_index < line_starts_of(
                old(self)@,
            )[r.0 + 1],
            r.1 == byte_index - line_starts_of(old(self)@)[r.0 as int],
    {
        self.line_col_from_byte_index(byte_index)
    }

    /// Byte offset of column `col` of line `line`. A column past the end of
    /// the line gives the line's end; a line past the last gives the end of
    /// the text.
    pub fn byte_index_from_line_col(&mut self, line: usize, col: usize) -> (r: usize)
        requires
            old(self).wf(),
        ensures
            final(self).wf(),
            final(self)@ == old(self)@,
            r <= old(self)@.len(),
            r == byte_of_line_col(old(self)@, line as int, col as int),
    {
        self.rebuild_line_cache_if_needed();
        proof {
            lemma_line_starts(self@);
        }
        if line >= self.line_starts.len() {
            return self.len();
        }
        let line_start = self.line_starts[line];
        let line_end = if line + 1 < self.line_starts.len() {
            self.line_starts[line + 1]
        } else {
            self.len()
        };
        let line_len = line_end - line_start;
        line_start + if col < line_len {
            col
        } else {
            line_len
        }
    }

    /// Number of lines: one more than the number of newlines.
    pub fn line_count(&mut self) -> (r: usize)
        requires
            old(self).wf(),
        ensures
            final(self).wf(),
            final(self)@ == old(self)@,
            r == line_starts_of(old(self)@).len(),
            r == newline_count(old(self)@) + 1,
    {
        self.rebuild_line_cache_if_needed();
        proof {
            lemma_line_starts(self@);
        }
        self.line_starts.len()
    }

    /// The same as `line_count`.
    pub fn line_count_mut(&mut self) -> (r: usize)
        requires
            old(self).wf(),
        ensures
            final(self).wf(),
            final(self)@ == old(self)@,
            r == line_starts_of(old(self)@).len(),
            r == newline_count(old(self)@) + 1,
    {
        self.line_count()
    }

    /// Text of line `line` without its line ending, or `None` past the last line.
    pub fn line_text(&mut self, line: usize) -> (r: Option<String>)
        requires
            old(self).wf(),
        ensures
            final(self).wf(),
            final(self)@ == old(self)@,
            line >= line_starts_of(old(self)@).len() ==> r is None,
            line < line_starts_of(old(self)@).len() ==> (r matches Some(t) && t@ == text_of(
                trim_line_end(
                    old(self)@.subrange(
                        line_starts_of(old(self)@)[line as int] as int,
                        line_end_of(old(self)@, line as int),
                    ),
                ),
            )),
    {
        self.rebuild_line_cache_if_needed();
        proof {
            lemma_line_starts(self@);
        }
        if line >= self.line_starts.len() {
            return None;
        }
        let start = self.line_starts[line];
        let end = if line + 1 < self.line_starts.len() {
            self.line_starts[line + 1]
        } else {
            self.len()
        };
        let mut bytes = self.bytes_between(start, end);
        pop_trailing(&mut bytes, NEWLINE);
        pop_trailing(&mut bytes, CARRIAGE_RETURN);
        Some(string_of(bytes))
    }

    /// Length of the text in bytes, gap excluded.
    pub fn len(&self) -> (r: usize)
        requires
            self.wf(),
        ensures
            r == self@.len(),
    {
        self.storage.len() - (self.gap_end - self.gap_start)
    }

    /// Inserts `text` at byte offset `pos`; a `pos` past the end inserts at
    /// the end. When the gap is too small it grows by what is missing, or by
    /// half the capacity if that is more.
    pub fn insert(&mut self, pos: usize, text: &str)
        requires
            old(self).wf(),
            old(self)@.len() + text.spec_bytes().len() <= usize::MAX,
        ensures
            final(self).wf(),
            final(self)@ == insert_bytes(old(self)@, pos as int, text.spec_bytes()),
            text.spec_bytes().len() > old(self).gap_len() ==> final(self).capacity()
                == old(self).capacity() + gap_growth(
                old(self).capacity(),
                old(self).gap_len(),
                text.spec_bytes().len(),
            ),
            text.spec_bytes().len() <= old(self).gap_len() ==> final(self).capacity()
                == old(self).capacity(),
    {
        let len = self.len();
        let at = if pos < len {
            pos
        } else {
            len
        };
        self.move_gap(at);
        let bytes = text.as_bytes();
        let text_len = bytes.len();
        let gap_size = self.gap_end - self.gap_start;
        if text_len > gap_size {
            let missing = text_len - gap_size;
            let half = self.storage.len() / 2;
            let wanted = if missing > half {
                missing
            } else {
                half
            };
            let additional = if self.storage.len() <= usize::MAX - wanted {
                wanted
            } else {
                missing
            };
            self.grow_gap(additional);
        }
        let ghost s2 = self.storage@;
        let gs = self.gap_start;
        let ghost ge = self.gap_end as int;
        assert(self@ == old(self)@);
        assert(gs == at);
        let mut i: usize = 0;
        while i < text_len
            invariant
                i <= text_len,
                text_len == bytes@.len(),
                gs == self.gap_start,
                gs + text_len <= self.gap_end,
                self.gap_end == ge,
                self.gap_end <= s2.len(),
                self.storage@.len() == s2.len(),
                forall|j: int|
                    0 <= j < s2.len() ==> self.storage@[j] == (if gs <= j < gs + i {
                        bytes@[j - gs]
                    } else {
                        s2[j]
                    }),
            decreases text_len - i,
        {
            self.storage[gs + i] = bytes[i];
            i = i + 1;
        }
        self.gap_start = gs + text_len;
        self.line_cache_dirty = true;
        assert(old(self)@ =~= s2.subrange(0, gs as int) + s2.subrange(ge, s2.len() as int));
        assert(self@ =~= s2.subrange(0, gs as int) + bytes@ + s2.subrange(ge, s2.len() as int));
        assert(old(self)@.take(at as int) =~= s2.subrange(0, gs as int));
        assert(old(self)@.skip(at as int) =~= s2.subrange(ge, s2.len() as int));
        assert(self@ =~= insert_bytes(old(self)@, pos as int, text.spec_bytes()));
    }

    /// Deletes the bytes of `range`, both ends clamped to the text; nothing
    /// happens when `range.start >= range.end`.
    pub fn delete_range(&mut self, range: std::ops::Range<usize>)
        requires
            old(self).wf(),
        ensures
            final(self).wf(),
            final(self)@ == delete_bytes(old(self)@, range.start as int, range.end as int),
            final(self).capacity() == old(self).capacity(),
    {
        if range.start >= range.end {
            return;
        }
        let len = self.len();
        let start = if range.start < len {
            range.start
        } else {
            len
        };
        let end = if range.end < len {
            range.end
        } else {
            len
        };
        self.move_gap(end);
        self.gap_start = self.gap_start - (end - start);
        self.line_cache_dirty = true;
        assert(self@ =~= delete_bytes(old(self)@, range.start as int, range.end as int));
    }

    /// Replaces the bytes of `range` with `text`: `delete_range(range)`, then
    /// `insert(range.start, text)`.
    pub fn replace_range(&mut self, range: std::ops::Range<usize>, text: &str)
        requires
            old(self).wf(),
            delete_bytes(old(self)@, range.start as int, range.end as int).len()
                + text.spec_bytes().len() <= usize::MAX,
        ensures
            final(self).wf(),
            final(self)@ == replace_bytes(
                old(self)@,
                range.start as int,
                range.end as int,
                text.spec_bytes(),
            ),
    {
        let start = range.start;
        self.delete_range(range);
        self.insert(start, text);
    }

    /// Whether the text is empty.
    pub fn is_empty(&self) -> (r: bool)
        requires
            self.wf(),
        ensures
            r == (self@.len() == 0),
    {
        self.len() == 0
    }
}

impl Default for TextBuffer {
    fn default() -> (r: Self)
        ensures
            r.wf(),
            r@ == Seq::<u8>::empty(),
    {
        TextBuffer::new()
    }
}

} // verus!
