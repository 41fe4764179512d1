//! The sinks a message is written to: a cursor over a buffer sized in
//! advance, and a rope of segments that keeps large shared payloads without
//! copying them.
use vstd::prelude::*;
use bytes::{Buf, Bytes, BytesMut};

verus! {

/// The `k` little-endian bytes of `v`.
pub open spec fn le_bytes(v: nat, k: nat) -> Seq<u8>
    decreases k,
{
    if k == 0 {
        Seq::empty()
    } else {
        seq![(v % 256) as u8] + le_bytes(v / 256, (k - 1) as nat)
    }
}

/// What a [`PreSized`] cursor holds: the bytes written so far, and how many
/// bytes it has room for.
pub struct PreSizedView {
    /// The bytes written so far.
    pub written: Seq<u8>,
    /// The size of the buffer, which the writes must not exceed.
    pub size: nat,
}

/// A cursor over a buffer of fixed size, sized exactly by a preceding
/// `compute_size` pass.
///
/// Each write must fit in what is left of the buffer: a write past the end
/// would mean that `write_to` produced more bytes than `compute_size`
/// declared. It counts the bytes it has written, which are the first bytes
/// of the buffer.
pub struct PreSized {
    buf: Vec<u8>,
    size: usize,
}

impl View for PreSized {
    type V = PreSizedView;

    closed spec fn view(&self) -> PreSizedView {
        PreSizedView { written: self.buf@, size: self.size as nat }
    }
}

impl PreSized {
    /// A cursor at the start of a buffer of `size` bytes.
    pub fn new(size: usize) -> (r: Self)
        ensures
            r@.written == Seq::<u8>::empty(),
            r@.size == size,
    {
        PreSized { buf: Vec::new(), size }
    }

    /// The number of bytes written so far.
    pub fn written(&self) -> (r: usize)
        ensures
            r == self@.written.len(),
    {
        self.buf.len()
    }

    /// The bytes written so far, which end the cursor.
    pub fn into_bytes(self) -> (r: Vec<u8>)
        ensures
            r@ == self@.written,
    {
        self.buf
    }

    /// Write one byte.
    pub fn put_u8(&mut self, value: u8)
        requires
            old(self)@.written.len() < old(self)@.size,
        ensures
            final(self)@.written == old(self)@.written.push(value),
            final(self)@.size == old(self)@.size,
    {
        self.buf.push(value);
    }

    /// Write the bytes of `src`.
    pub fn put_slice(&mut self, src: &[u8])
        requires
            old(self)@.written.len() + src@.len() <= old(self)@.size,
        ensures
            final(self)@.written == old(self)@.written + src@,
            final(self)@.size == old(self)@.size,
    {
        let mut i: usize = 0;
        while i < src.len()
            invariant
                i <= src@.len(),
                self.size == old(self).size,
                self.buf@ == old(self).buf@ + src@.subrange(0, i as int),
                old(self).buf@.len() + src@.len() <= self.size,
            decreases src@.len() - i,
        {
            self.buf.push(src[i]);
            i = i + 1;
            assert(self.buf@ =~= old(self).buf@ + src@.subrange(0, i as int));
        }
        assert(src@.subrange(0, i as int) =~= src@);
    }

    /// Write the `k` low bytes of `value`, least significant first.
    fn put_le(&mut self, value: u64, k: usize)
        requires
            k <= 8,
            old(self)@.written.len() + k <= old(self)@.size,
        ensures
            final(self)@.written == old(self)@.written + le_bytes(value as nat, k as nat),
            final(self)@.size == old(self)@.size,
    {
        let mut v: u64 = value;
        let mut i: usize = 0;
        while i < k
            invariant
                i <= k <= 8,
                self.size == old(self).size,
                old(self).buf@.len() + k <= self.size,
                self.buf@ + le_bytes(v as nat, (k - i) as nat) == old(self).buf@ + le_bytes(
                    value as nat,
                    k as nat,
                ),
                self.buf@.len() == old(self).buf@.len() + i,
            decreases k - i,
        {
            let b = (v % 256) as u8;
            assert(le_bytes(v as nat, (k - i) as nat) == seq![b] + le_bytes(
                (v / 256) as nat,
                (k - i - 1) as nat,
            ));
            assert(self.buf@.push(b) + le_bytes((v / 256) as nat, (k - i - 1) as nat)
                =~= self.buf@ + (seq![b] + le_bytes((v / 256) as nat, (k - i - 1) as nat)));
            self.buf.push(b);
            v = v / 256;
            i = i + 1;
        }
        assert(le_bytes(v as nat, 0) =~= Seq::<u8>::empty());
        assert(self.buf@ + Seq::<u8>::empty() =~= self.buf@);
    }

    /// Write a `u32`, least significant byte first.
    pub fn put_u32_le(&mut self, value: u32)
        requires
            old(self)@.written.len() + 4 <= old(self)@.size,
        ensures
            final(self)@.written == old(self)@.written + le_bytes(value as nat, 4),
            final(self)@.size == old(self)@.size,
    {
        self.put_le(value as u64, 4);
    }

    /// Write a `u64`, least significant byte first.
    pub fn put_u64_le(&mut self, value: u64)
        requires
            old(self)@.written.len() + 8 <= old(self)@.size,
        ensures
            final(self)@.written == old(self)@.written + le_bytes(value as nat, 8),
            final(self)@.size == old(self)@.size,
    {
        self.put_le(value, 8);
    }
}

/// The size below which a write is copied into the rope's tail rather than
/// kept as a segment of its own.
pub const DEFAULT_MIN_SEGMENT: usize = 4096;

#[verifier::external_type_specification]
#[verifier::external_body]
pub struct ExBytes(Bytes);

#[verifier::external_type_specification]
#[verifier::external_body]
pub struct ExBytesMut(BytesMut);

/// The bytes that a `Bytes` handle shows.
pub uninterp spec fn bytes_view(b: Bytes) -> Seq<u8>;

/// The bytes that a `BytesMut` holds.
pub uninterp spec fn bytes_mut_view(b: BytesMut) -> Seq<u8>;

/// `Bytes::len`: the number of bytes the handle shows.
#[verifier::external_body]
fn bytes_len(b: &Bytes) -> (r: usize)
    ensures
        r == bytes_view(*b).len(),
{
    b.len()
}

/// `Bytes::new`: an empty handle.
#[verifier::external_body]
fn bytes_empty() -> (r: Bytes)
    ensures
        bytes_view(r) == Seq::<u8>::empty(),
{
    Bytes::new()
}

/// `From<Vec<u8>> for Bytes`: a handle that shows the bytes of `v`.
#[verifier::external_body]
fn bytes_from_vec(v: Vec<u8>) -> (r: Bytes)
    ensures
        bytes_view(r) == v@,
{
    Bytes::from(v)
}

/// `Deref for Bytes`: the bytes the handle shows, as a slice.
#[verifier::external_body]
fn bytes_slice(b: &Bytes) -> (r: &[u8])
    ensures
        r@ == bytes_view(*b),
{
    &**b
}

/// `Buf::advance` on `Bytes`: drop the first `cnt` bytes from the handle.
/// It panics past the end, which the precondition rules out.
#[verifier::external_body]
fn bytes_advance(b: &mut Bytes, cnt: usize)
    requires
        cnt <= bytes_view(*old(b)).len(),
    ensures
        bytes_view(*final(b)) == bytes_view(*old(b)).subrange(cnt as int, bytes_view(*old(b)).len() as int),
{
    b.advance(cnt)
}

/// `BytesMut::new`: an empty buffer.
#[verifier::external_body]
fn bytes_mut_new() -> (r: BytesMut)
    ensures
        bytes_mut_view(r) == Seq::<u8>::empty(),
{
    BytesMut::new()
}

/// `BytesMut::len`: the number of bytes held.
#[verifier::external_body]
fn bytes_mut_len(b: &BytesMut) -> (r: usize)
    ensures
        r == bytes_mut_view(*b).len(),
{
    b.len()
}

/// `BytesMut::is_empty`: whether no byte is held.
#[verifier::external_body]
fn bytes_mut_is_empty(b: &BytesMut) -> (r: bool)
    ensures
        r == (bytes_mut_view(*b).len() == 0),
{
    b.is_empty()
}

/// `BytesMut::extend_from_slice`: append the bytes of `src`.
#[verifier::external_body]
pub(crate) fn bytes_mut_extend(b: &mut BytesMut, src: &[u8])
    ensures
        bytes_mut_view(*final(b)) == bytes_mut_view(*old(b)) + src@,
{
    b.extend_from_slice(src)
}

/// `Deref for BytesMut`: the bytes held, as a slice.
#[verifier::external_body]
fn bytes_mut_slice(b: &BytesMut) -> (r: &[u8])
    ensures
        r@ == bytes_mut_view(*b),
{
    &**b
}

/// `BytesMut::split`: take every byte held into a new buffer, leaving this
/// one empty.
#[verifier::external_body]
fn bytes_mut_split(b: &mut BytesMut) -> (r: BytesMut)
    ensures
        bytes_mut_view(r) == bytes_mut_view(*old(b)),
        bytes_mut_view(*final(b)) == Seq::<u8>::empty(),
{
    b.split()
}

/// `BytesMut::freeze`: a handle that shows the bytes held.
#[verifier::external_body]
fn bytes_mut_freeze(b: BytesMut) -> (r: Bytes)
    ensures
        bytes_view(r) == bytes_mut_view(b),
{
    b.freeze()
}

/// The bytes of the handles `segs`, one after the other.
pub open spec fn concat(segs: Seq<Bytes>) -> Seq<u8>
    decreases segs.len(),
{
    if segs.len() == 0 {
        Seq::empty()
    } else {
        concat(segs.drop_last()) + bytes_view(segs.last())
    }
}

/// Whether every handle of `segs` shows at least one byte.
pub open spec fn all_nonempty(segs: Seq<Bytes>) -> bool {
    forall|i: int| 0 <= i < segs.len() ==> #[trigger] bytes_view(segs[i]).len() > 0
}

/// The bytes of `v`, a value of `k` bytes, least significant first.
fn le_vec(v: u64, k: usize) -> (r: Vec<u8>)
    requires
        k <= 8,
    ensures
        r@ == le_bytes(v as nat, k as nat),
{
    let mut out: Vec<u8> = Vec::new();
    let mut rest: u64 = v;
    let mut i: usize = 0;
    while i < k
        invariant
            i <= k <= 8,
            out@ + le_bytes(rest as nat, (k - i) as nat) == le_bytes(v as nat, k as nat),
        decreases k - i,
    {
        let b = (rest % 256) as u8;
        assert(le_bytes(rest as nat, (k - i) as nat) == seq![b] + le_bytes(
            (rest / 256) as nat,
            (k - i - 1) as nat,
        ));
        assert(out@.push(b) + le_bytes((rest / 256) as nat, (k - i - 1) as nat) =~= out@ + (seq![b]
            + le_bytes((rest / 256) as nat, (k - i - 1) as nat)));
        out.push(b);
        rest = rest / 256;
        i = i + 1;
    }
    assert(out@ + le_bytes(rest as nat, 0) =~= out@);
    out
}

/// What a [`Rope`] holds: its finished segments, the tail that small writes
/// accumulate in, and the size from which a write becomes a segment.
pub struct RopeView {
    /// The finished segments, in output order.
    pub segments: Seq<Bytes>,
    /// The bytes of the writes since the last segment.
    pub tail: Seq<u8>,
    /// The minimum length for a write to become its own segment.
    pub min_segment: usize,
}

impl RopeView {
    /// Every byte written to the rope, in order.
    pub open spec fn bytes(self) -> Seq<u8> {
        concat(self.segments) + self.tail
    }
}

/// A segmented sink: an ordered sequence of [`Bytes`] segments.
///
/// Small writes (tags, varints, scalar fields, short strings) accumulate in
/// a tail buffer; large shared segments are kept by reference count instead
/// of copied. Concatenating the segments reproduces exactly the bytes a
/// contiguous sink would have received.
pub struct Rope {
    segments: Vec<Bytes>,
    tail: BytesMut,
    min_segment: usize,
}

impl View for Rope {
    type V = RopeView;

    closed spec fn view(&self) -> RopeView {
        RopeView {
            segments: self.segments@,
            tail: bytes_mut_view(self.tail),
            min_segment: self.min_segment,
        }
    }
}

impl Default for Rope {
    /// Equivalent to [`Rope::new`].
    fn default() -> (r: Self)
        ensures
            r.wf(),
            r@.bytes() == Seq::<u8>::empty(),
            r@.segments == Seq::<Bytes>::empty(),
            r@.min_segment == DEFAULT_MIN_SEGMENT,
    {
        Self::new()
    }
}

impl Rope {
    /// Segments are never empty, and the minimum segment length is at
    /// least one.
    pub open spec fn wf(&self) -> bool {
        &&& self@.min_segment >= 1
        &&& all_nonempty(self@.segments)
    }

    /// Create a rope with [`DEFAULT_MIN_SEGMENT`].
    pub fn new() -> (r: Self)
        ensures
            r.wf(),
            r@.segments == Seq::<Bytes>::empty(),
            r@.tail == Seq::<u8>::empty(),
            r@.min_segment == DEFAULT_MIN_SEGMENT,
    {
        Self::with_min_segment(DEFAULT_MIN_SEGMENT)
    }

    /// Create a rope with a custom minimum segment size. `usize::MAX` never
    /// segments; `0` is taken as `1`, so that an empty payload never makes
    /// an empty segment.
    pub fn with_min_segment(min_segment: usize) -> (r: Self)
        ensures
            r.wf(),
            r@.segments == Seq::<Bytes>::empty(),
            r@.tail == Seq::<u8>::empty(),
            r@.min_segment == if min_segment == 0 {
                1
            } else {
                min_segment
            },
    {
        let min = if min_segment == 0 {
            1
        } else {
            min_segment
        };
        Rope { segments: Vec::new(), tail: bytes_mut_new(), min_segment: min }
    }

    /// Total byte length across all segments and the tail.
    pub fn len(&self) -> (r: usize)
        requires
            self@.bytes().len() <= usize::MAX,
        ensures
            r == self@.bytes().len(),
    {
        let mut total: usize = 0;
        let mut i: usize = 0;
        while i < self.segments.len()
            invariant
                i <= self.segments@.len(),
                total == concat(self.segments@.subrange(0, i as int)).len(),
                concat(self.segments@).len() + bytes_mut_view(self.tail).len() <= usize::MAX,
            decreases self.segments@.len() - i,
        {
            proof {
                lemma_concat_prefix_len(self.segments@, i as int);
            }
            assert(self.segments@.subrange(0, i + 1).drop_last() =~= self.segments@.subrange(0, i as int));
            total = total + bytes_len(&self.segments[i]);
            i = i + 1;
        }
        assert(self.segments@.subrange(0, i as int) =~= self.segments@);
        total + bytes_mut_len(&self.tail)
    }

    /// Whether the rope contains no bytes.
    pub fn is_empty(&self) -> (r: bool)
        requires
            self.wf(),
        ensures
            r == (self@.bytes().len() == 0),
    {
        proof {
            if self.segments@.len() > 0 {
                lemma_concat_nonempty(self.segments@);
            }
        }
        bytes_mut_is_empty(&self.tail) && self.segments.len() == 0
    }

    /// The number of segments [`into_segments`](Self::into_segments) yields,
    /// counting the tail if it holds any byte.
    pub fn segment_count(&self) -> (r: usize)
        requires
            self@.segments.len() < usize::MAX,
        ensures
            r == self@.segments.len() + if self@.tail.len() > 0 {
                1int
            } else {
                0
            },
    {
        let tail: usize = if bytes_mut_is_empty(&self.tail) {
            0
        } else {
            1
        };
        self.segments.len() + tail
    }

    /// Finish the rope, yielding its segments in output order: every byte
    /// written, none of them empty. The rope's own segments come out as they
    /// are, the handles that were put in, followed by the tail as a segment
    /// of its own if it holds anything.
    pub fn into_segments(self) -> (r: Vec<Bytes>)
        requires
            self.wf(),
        ensures
            concat(r@) == self@.bytes(),
            all_nonempty(r@),
            r@.len() == self@.segments.len() + if self@.tail.len() > 0 {
                1int
            } else {
                0
            },
            r@.subrange(0, self@.segments.len() as int) == self@.segments,
            self@.tail.len() > 0 ==> bytes_view(r@.last()) == self@.tail,
    {
        let mut rope = self;
        rope.flush_tail();
        proof {
            if self@.tail.len() == 0 {
                assert(rope.segments@.subrange(0, self@.segments.len() as int) =~= rope.segments@);
            } else {
                assert(rope.segments@.subrange(0, self@.segments.len() as int) =~= rope.segments@.drop_last());
            }
        }
        rope.segments
    }

    /// Copy the rope out into one contiguous [`Bytes`].
    pub fn to_contiguous_bytes(&self) -> (r: Bytes)
        requires
            self@.bytes().len() <= usize::MAX,
        ensures
            bytes_view(r) == self@.bytes(),
    {
        let mut out: Vec<u8> = Vec::with_capacity(self.len());
        let mut i: usize = 0;
        while i < self.segments.len()
            invariant
                i <= self.segments@.len(),
                out@ == concat(self.segments@.subrange(0, i as int)),
            decreases self.segments@.len() - i,
        {
            assert(self.segments@.subrange(0, i + 1).drop_last() =~= self.segments@.subrange(0, i as int));
            out.extend_from_slice(bytes_slice(&self.segments[i]));
            i = i + 1;
            assert(out@ =~= concat(self.segments@.subrange(0, i as int)));
        }
        assert(self.segments@.subrange(0, i as int) =~= self.segments@);
        out.extend_from_slice(bytes_mut_slice(&self.tail));
        assert(out@ =~= self@.bytes());
        bytes_from_vec(out)
    }

    /// Move the accumulated tail into the segment list.
    fn flush_tail(&mut self)
        requires
            old(self).wf(),
        ensures
            final(self).wf(),
            final(self)@.bytes() == old(self)@.bytes(),
            final(self)@.tail == Seq::<u8>::empty(),
            final(self)@.min_segment == old(self)@.min_segment,
            old(self)@.tail.len() == 0 ==> final(self)@.segments == old(self)@.segments,
            old(self)@.tail.len() > 0 ==> final(self)@.segments.len() == old(self)@.segments.len() + 1
                && final(self)@.segments.drop_last() == old(self)@.segments && bytes_view(
                final(self)@.segments.last(),
            ) == old(self)@.tail,
    {
        if !bytes_mut_is_empty(&self.tail) {
            let rest = bytes_mut_split(&mut self.tail);
            let segment = bytes_mut_freeze(rest);
            self.segments.push(segment);
            proof {
                assert(self.segments@.drop_last() =~= old(self).segments@);
                assert(concat(self.segments@) == concat(old(self).segments@) + bytes_mut_view(
                    old(self).tail,
                ));
            }
        }
        assert(self@.bytes() =~= old(self)@.bytes());
    }

    /// Write one byte.
    pub fn put_u8(&mut self, value: u8)
        requires
            old(self).wf(),
        ensures
            final(self).wf(),
            final(self)@.bytes() == old(self)@.bytes().push(value),
            final(self)@.segments == old(self)@.segments,
            final(self)@.min_segment == old(self)@.min_segment,
    {
        let one: Vec<u8> = vec![value];
        bytes_mut_extend(&mut self.tail, one.as_slice());
        assert(self@.bytes() =~= old(self)@.bytes().push(value));
    }

    /// Write the bytes of `src`, which are copied into the tail.
    pub fn put_slice(&mut self, src: &[u8])
        requires
            old(self).wf(),
        ensures
            final(self).wf(),
            final(self)@.bytes() == old(self)@.bytes() + src@,
            final(self)@.segments == old(self)@.segments,
            final(self)@.min_segment == old(self)@.min_segment,
    {
        bytes_mut_extend(&mut self.tail, src);
        assert(self@.bytes() =~= old(self)@.bytes() + src@);
    }

    /// Write a `u32`, least significant byte first.
    pub fn put_u32_le(&mut self, value: u32)
        requires
            old(self).wf(),
        ensures
            final(self).wf(),
            final(self)@.bytes() == old(self)@.bytes() + le_bytes(value as nat, 4),
            final(self)@.segments == old(self)@.segments,
            final(self)@.min_segment == old(self)@.min_segment,
    {
        let b = le_vec(value as u64, 4);
        bytes_mut_extend(&mut self.tail, b.as_slice());
        assert(self@.bytes() =~= old(self)@.bytes() + le_bytes(value as nat, 4));
    }

    /// Write a `u64`, least significant byte first.
    pub fn put_u64_le(&mut self, value: u64)
        requires
            old(self).wf(),
        ensures
            final(self).wf(),
            final(self)@.bytes() == old(self)@.bytes() + le_bytes(value as nat, 8),
            final(self)@.segments == old(self)@.segments,
            final(self)@.min_segment == old(self)@.min_segment,
    {
        let b = le_vec(value, 8);
        bytes_mut_extend(&mut self.tail, b.as_slice());
        assert(self@.bytes() =~= old(self)@.bytes() + le_bytes(value as nat, 8));
    }

    /// Write a shared payload: one of at least the minimum segment length
    /// becomes a segment of its own, the same handle and so not copied,
    /// after the tail; a shorter one is copied into the tail.
    pub fn put_shared(&mut self, bytes: Bytes)
        requires
            old(self).wf(),
        ensures
            final(self).wf(),
            final(self)@.bytes() == old(self)@.bytes() + bytes_view(bytes),
            final(self)@.min_segment == old(self)@.min_segment,
            bytes_view(bytes).len() >= old(self)@.min_segment ==> final(self)@.segments.last()
                == bytes && final(self)@.tail == Seq::<u8>::empty(),
            bytes_view(bytes).len() < old(self)@.min_segment ==> final(self)@.segments == old(
                self,
            )@.segments && final(self)@.tail == old(self)@.tail + bytes_view(bytes),
            bytes_view(bytes).len() >= old(self)@.min_segment && old(self)@.tail.len() == 0
                ==> final(self)@.segments == old(self)@.segments.push(bytes),
            bytes_view(bytes).len() >= old(self)@.min_segment && old(self)@.tail.len() > 0 ==> {
                let n = old(self)@.segments.len();
                &&& final(self)@.segments.len() == n + 2
                &&& final(self)@.segments.subrange(0, n as int) == old(self)@.segments
                &&& bytes_view(final(self)@.segments[n as int]) == old(self)@.tail
                &&& final(self)@.segments[n + 1int] == bytes
            },
    {
        if bytes_len(&bytes) >= self.min_segment {
            self.flush_tail();
            let ghost mid = self.segments@;
            self.segments.push(bytes);
            proof {
                assert(self.segments@.drop_last() =~= mid);
                if old(self)@.tail.len() > 0 {
                    assert(self@.segments.subrange(0, old(self)@.segments.len() as int)
                        =~= old(self)@.segments);
                }
            }
        } else {
            bytes_mut_extend(&mut self.tail, bytes_slice(&bytes));
        }
        assert(self@.bytes() =~= old(self)@.bytes() + bytes_view(bytes));
    }
}

/// The writes `ws`, one after the other.
pub open spec fn concat_writes(ws: Seq<Seq<u8>>) -> Seq<u8>
    decreases ws.len(),
{
    if ws.len() == 0 {
        Seq::empty()
    } else {
        concat_writes(ws.drop_last()) + ws.last()
    }
}

/// Over a run of writes in which each appends its bytes, as the `ensures`
/// of every write method of [`Rope`] says (`put_u8`, `put_slice`,
/// `put_u32_le`, `put_u64_le`, `put_shared`), the rope ends holding what it
/// held followed by every write in call order: what a contiguous sink would
/// hold. [`Rope::into_segments`] then yields exactly those bytes.
pub proof fn lemma_rope_writes(states: Seq<RopeView>, ws: Seq<Seq<u8>>)
    requires
        states.len() == ws.len() + 1,
        forall|i: int|
            0 <= i < ws.len() ==> #[trigger] states[i + 1].bytes() == states[i].bytes() + ws[i],
    ensures
        states.last().bytes() == states[0].bytes() + concat_writes(ws),
    decreases ws.len(),
{
    if ws.len() == 0 {
        assert(states[0].bytes() + Seq::<u8>::empty() =~= states[0].bytes());
    } else {
        let k = ws.len() - 1;
        let ps = states.drop_last();
        let pw = ws.drop_last();
        assert forall|i: int| 0 <= i < pw.len() implies #[trigger] ps[i + 1].bytes() == ps[i].bytes()
            + pw[i] by {
            assert(states[i + 1].bytes() == states[i].bytes() + ws[i]);
        };
        lemma_rope_writes(ps, pw);
        assert(states[k + 1].bytes() == states[k].bytes() + ws[k]);
        assert(states[0].bytes() + concat_writes(pw) + ws.last() =~= states[0].bytes() + (
        concat_writes(pw) + ws.last()));
    }
}

/// The bytes of a prefix of the segments are no more than those of all.
proof fn lemma_concat_prefix_len(segs: Seq<Bytes>, i: int)
    requires
        0 <= i < segs.len(),
    ensures
        concat(segs.subrange(0, i + 1)).len() <= concat(segs).len(),
        concat(segs.subrange(0, i + 1)) == concat(segs.subrange(0, i)) + bytes_view(segs[i]),
    decreases segs.len() - i,
{
    assert(segs.subrange(0, i + 1).drop_last() =~= segs.subrange(0, i));
    if i + 1 < segs.len() {
        lemma_concat_prefix_len(segs, i + 1);
    } else {
        assert(segs.subrange(0, i + 1) =~= segs);
    }
}

/// Segments that are not all empty hold some byte.
proof fn lemma_concat_nonempty(segs: Seq<Bytes>)
    requires
        segs.len() > 0,
        all_nonempty(segs),
    ensures
        concat(segs).len() > 0,
{
    assert(bytes_view(segs.last()).len() > 0);
}

/// The bytes of all the segments are those of the first followed by those of
/// the rest.
proof fn lemma_concat_front(segs: Seq<Bytes>)
    requires
        segs.len() > 0,
    ensures
        concat(segs) == bytes_view(segs[0]) + concat(segs.drop_first()),
    decreases segs.len(),
{
    if segs.len() == 1 {
        assert(segs.drop_first() =~= Seq::<Bytes>::empty());
        assert(segs.drop_last() =~= Seq::<Bytes>::empty());
    } else {
        lemma_concat_front(segs.drop_last());
        assert(segs.drop_last().drop_first() =~= segs.drop_first().drop_last());
        assert(segs.drop_first().last() == segs.last());
    }
}

/// What a [`RopeBuf`] has still to yield.
pub open spec fn rope_buf_bytes(segments: Seq<Bytes>, pos: int) -> Seq<u8> {
    concat(segments.subrange(pos, segments.len() as int))
}

/// A reader over a finished rope's segments, for consumers that take the
/// bytes chunk by chunk.
pub struct RopeBuf {
    segments: Vec<Bytes>,
    pos: usize,
    remaining: usize,
}

impl View for RopeBuf {
    type V = Seq<u8>;

    /// The bytes not yet consumed.
    closed spec fn view(&self) -> Seq<u8> {
        rope_buf_bytes(self.segments@, self.pos as int)
    }
}

impl RopeBuf {
    /// The segments not yet consumed, in order; `self@` is their bytes.
    pub closed spec fn unconsumed(&self) -> Seq<Bytes> {
        self.segments@.subrange(self.pos as int, self.segments@.len() as int)
    }

    /// What a reader holds is the bytes of its unconsumed segments, and
    /// none of them is empty.
    pub proof fn lemma_unconsumed(&self)
        requires
            self.wf(),
        ensures
            self@ == concat(self.unconsumed()),
            all_nonempty(self.unconsumed()),
    {
    }

    /// The segments not yet consumed are never empty, and `remaining`
    /// counts their bytes.
    pub closed spec fn wf(&self) -> bool {
        &&& self.pos <= self.segments@.len()
        &&& all_nonempty(self.segments@.subrange(self.pos as int, self.segments@.len() as int))
        &&& self.remaining == self@.len()
    }

    /// A reader over the segments of `rope`: its own segments, then its
    /// tail as a segment if it holds anything.
    pub fn from_rope(rope: Rope) -> (r: RopeBuf)
        requires
            rope.wf(),
            rope@.bytes().len() <= usize::MAX,
        ensures
            r.wf(),
            r@ == rope@.bytes(),
            r.unconsumed().len() == rope@.segments.len() + if rope@.tail.len() > 0 {
                1int
            } else {
                0
            },
            r.unconsumed().subrange(0, rope@.segments.len() as int) == rope@.segments,
            rope@.tail.len() > 0 ==> bytes_view(r.unconsumed().last()) == rope@.tail,
    {
        let segments = rope.into_segments();
        let mut remaining: usize = 0;
        let mut i: usize = 0;
        while i < segments.len()
            invariant
                i <= segments@.len(),
                remaining == concat(segments@.subrange(0, i as int)).len(),
                concat(segments@).len() <= usize::MAX,
            decreases segments@.len() - i,
        {
            proof {
                lemma_concat_prefix_len(segments@, i as int);
            }
            remaining = remaining + bytes_len(&segments[i]);
            i = i + 1;
        }
        assert(segments@.subrange(0, i as int) =~= segments@);
        assert(segments@.subrange(0, segments@.len() as int) =~= segments@);
        RopeBuf { segments, pos: 0, remaining }
    }

    /// The number of bytes not yet consumed.
    pub fn remaining(&self) -> (r: usize)
        requires
            self.wf(),
        ensures
            r == self@.len(),
    {
        self.remaining
    }

    /// The bytes of the first segment not yet consumed, or none at the end.
    pub fn chunk(&self) -> (r: &[u8])
        requires
            self.wf(),
        ensures
            r@ == if self.unconsumed().len() > 0 {
                bytes_view(self.unconsumed()[0])
            } else {
                Seq::<u8>::empty()
            },
            self@.len() > 0 ==> 0 < r@.len() <= self@.len() && r@ == self@.subrange(0, r@.len() as int),
            self@.len() == 0 ==> r@.len() == 0,
    {
        if self.pos < self.segments.len() {
            let ghost rest = self.segments@.subrange(self.pos as int, self.segments@.len() as int);
            proof {
                lemma_concat_front(rest);
                assert(rest[0] == self.segments@[self.pos as int]);
                assert(bytes_view(rest[0]).len() > 0);
            }
            bytes_slice(&self.segments[self.pos])
        } else {
            proof {
                assert(self.segments@.subrange(self.pos as int, self.segments@.len() as int)
                    =~= Seq::<Bytes>::empty());
            }
            let empty: &[u8] = &[];
            empty
        }
    }

    /// Consume `cnt` bytes, releasing each segment as soon as it is
    /// consumed whole. There must be that many bytes left.
    pub fn advance(&mut self, cnt: usize)
        requires
            old(self).wf(),
            cnt <= old(self)@.len(),
        ensures
            final(self).wf(),
            final(self)@ == old(self)@.subrange(cnt as int, old(self)@.len() as int),
    {
        self.remaining = self.remaining - cnt;
        let ghost target = old(self)@.subrange(cnt as int, old(self)@.len() as int);
        let mut left = cnt;
        while left > 0
            invariant
                self.pos <= self.segments@.len(),
                all_nonempty(self.segments@.subrange(self.pos as int, self.segments@.len() as int)),
                left <= self@.len(),
                self@.subrange(left as int, self@.len() as int) == target,
                self.remaining == target.len(),
                cnt <= old(self)@.len(),
                target == old(self)@.subrange(cnt as int, old(self)@.len() as int),
            decreases left,
        {
            let pos = self.pos;
            let ghost rest = self.segments@.subrange(pos as int, self.segments@.len() as int);
            proof {
                if rest.len() == 0 {
                    assert(rest =~= Seq::<Bytes>::empty());
                }
                lemma_concat_front(rest);
                assert(rest[0] == self.segments@[pos as int]);
                assert(rest.drop_first() =~= self.segments@.subrange(pos + 1, self.segments@.len() as int));
            }
            assert(pos < self.segments@.len());
            let ghost view_now = self@;
            let front_len = bytes_len(&self.segments[pos]);
            if left < front_len {
                let ghost before = self.segments@;
                bytes_advance(&mut self.segments[pos], left);
                proof {
                    let after = self.segments@;
                    let rest2 = after.subrange(pos as int, after.len() as int);
                    assert(rest2.drop_first() =~= before.subrange(pos + 1, before.len() as int));
                    lemma_concat_front(rest2);
                    assert(rest2[0] == after[pos as int]);
                    assert(self@ =~= old_self_view_skip(before, pos as int, left as int));
                    assert(view_now.subrange(left as int, view_now.len() as int) =~= old_self_view_skip(
                        before,
                        pos as int,
                        left as int,
                    ));
                    assert(all_nonempty(rest2)) by {
                        assert forall|i: int| 0 <= i < rest2.len() implies #[trigger] bytes_view(rest2[i]).len() > 0 by {
                            if i > 0 {
                                assert(rest2[i] == rest[i]);
                            }
                        }
                    }
                    assert(self@ =~= self@.subrange(0, self@.len() as int));
                }
                return;
            }
            let ghost view_before = self@;
            left = left - front_len;
            self.segments.set(pos, bytes_empty());
            assert(pos < self.segments.len());
            self.pos = pos + 1;
            proof {
                assert(self.segments@.subrange(self.pos as int, self.segments@.len() as int) =~= rest.drop_first());
                assert(self@ =~= view_before.subrange(front_len as int, view_before.len() as int));
                assert(self@.subrange(left as int, self@.len() as int) =~= view_before.subrange(
                    (left + front_len) as int,
                    view_before.len() as int,
                ));
                assert forall|i: int| 0 <= i < rest.drop_first().len() implies #[trigger] bytes_view(rest.drop_first()[i]).len() > 0 by {
                    assert(rest.drop_first()[i] == rest[i + 1]);
                }
            }
        }
        assert(self@.subrange(0, self@.len() as int) =~= self@);
    }
}

/// The bytes of segments `before[pos..]` once the segment at `pos` has lost
/// its first `cnt` bytes.
spec fn old_self_view_skip(before: Seq<Bytes>, pos: int, cnt: int) -> Seq<u8> {
    bytes_view(before[pos]).subrange(cnt, bytes_view(before[pos]).len() as int) + concat(
        before.subrange(pos + 1, before.len() as int),
    )
}

} // verus!
