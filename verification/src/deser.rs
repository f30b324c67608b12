//! The binary encoding engine: a bounded byte sink, the little-endian
//! serializer that writes into it, and the decode primitives that read
//! the same layout back.

use vstd::prelude::*;
use vstd::string::StringSliceAdditionalSpecFns;
use vstd::utf8::char_is_scalar;
use vstd::utf8::encode_scalar;
use vstd::utf8::encode_utf8;

verus! {

/// Reasons an encode call can fail; the first failure aborts the whole call
/// and leaves the sink unusable.
#[derive(Clone, Copy, Debug, PartialEq, Eq, Structural)]
pub enum Error {
    /// A caller-supplied failure from a generic adapter; carries no payload.
    Custom,
    /// A write would exceed the remaining capacity of the sink.
    NoSpaceLeft,
    /// Generic stringification is not part of this wire format.
    NoDisplay,
    /// A declared length does not fit the configured length-prefix width.
    LenTooLarge,
}

impl Error {
    /// A short human-readable account of the failure.
    pub fn description(&self) -> (r: &'static str)
        ensures
            *self is Custom ==> r@ == "Custom error"@,
            *self is NoSpaceLeft ==> r@ == "Buffer is full"@,
            *self is NoDisplay ==> r@ == "No collect_str available"@,
            *self is LenTooLarge ==> r@ == "Length too large"@,
    {
        match self {
            Error::Custom => "Custom error",
            Error::NoSpaceLeft => "Buffer is full",
            Error::NoDisplay => "No collect_str available",
            Error::LenTooLarge => "Length too large",
        }
    }
}

/// Byte width of the length prefix written before variable-length payloads;
/// chosen once per serializer instance.
#[derive(Clone, Copy, Debug, PartialEq, Eq, Structural)]
pub enum LenWidth {
    One,
    Two,
    Four,
}

impl LenWidth {
    /// Number of bytes the prefix occupies on the wire.
    pub open spec fn spec_width(self) -> nat {
        match self {
            LenWidth::One => 1,
            LenWidth::Two => 2,
            LenWidth::Four => 4,
        }
    }

    /// Largest length the prefix can declare.
    pub open spec fn spec_max(self) -> nat {
        match self {
            LenWidth::One => 0xff,
            LenWidth::Two => 0xffff,
            LenWidth::Four => 0xffff_ffff,
        }
    }

    pub fn width(self) -> (w: usize)
        ensures
            w == self.spec_width(),
    {
        match self {
            LenWidth::One => 1,
            LenWidth::Two => 2,
            LenWidth::Four => 4,
        }
    }

    pub fn max(self) -> (m: u64)
        ensures
            m == self.spec_max(),
    {
        match self {
            LenWidth::One => 0xff,
            LenWidth::Two => 0xffff,
            LenWidth::Four => 0xffff_ffff,
        }
    }
}

/// The `n`-byte little-endian representation of `v`; bits above `8 * n`
/// are dropped.
pub open spec fn le_bytes(v: nat, n: nat) -> Seq<u8>
    decreases n,
{
    if n == 0 {
        Seq::empty()
    } else {
        seq![(v % 256) as u8] + le_bytes(v / 256, (n - 1) as nat)
    }
}

/// The value a little-endian byte string stands for.
pub open spec fn le_val(s: Seq<u8>) -> nat
    decreases s.len(),
{
    if s.len() == 0 {
        0
    } else {
        s[0] as nat + 256 * le_val(s.drop_first())
    }
}

/// `256 ^ n`: one more than the largest value `n` little-endian bytes can hold.
pub open spec fn pow256(n: nat) -> nat
    decreases n,
{
    if n == 0 {
        1
    } else {
        256 * pow256((n - 1) as nat)
    }
}

pub proof fn lemma_le_bytes_len(v: nat, n: nat)
    ensures
        le_bytes(v, n).len() == n,
    decreases n,
{
    if n > 0 {
        lemma_le_bytes_len(v / 256, (n - 1) as nat);
    }
}

/// Reading back the little-endian bytes of a value below `256 ^ n`
/// recovers the value.
pub proof fn lemma_le_val_of_le_bytes(v: nat, n: nat)
    requires
        v < pow256(n),
    ensures
        le_val(le_bytes(v, n)) == v,
    decreases n,
{
    if n > 0 {
        assert(v / 256 < pow256((n - 1) as nat)) by (nonlinear_arith)
            requires
                v < 256 * pow256((n - 1) as nat),
        ;
        lemma_le_val_of_le_bytes(v / 256, (n - 1) as nat);
        lemma_le_bytes_len(v / 256, (n - 1) as nat);
        assert(le_bytes(v, n).drop_first() =~= le_bytes(v / 256, (n - 1) as nat));
    }
}

/// Every little-endian byte string stands for a value below `256 ^ len`.
pub proof fn lemma_le_val_bound(s: Seq<u8>)
    ensures
        le_val(s) < pow256(s.len()),
    decreases s.len(),
{
    if s.len() > 0 {
        lemma_le_val_bound(s.drop_first());
    }
}

/// Re-encoding the value a byte string stands for gives back the string.
pub proof fn lemma_le_bytes_of_le_val(s: Seq<u8>)
    ensures
        le_bytes(le_val(s), s.len()) == s,
    decreases s.len(),
{
    if s.len() > 0 {
        let v = le_val(s);
        assert(v % 256 == s[0] && v / 256 == le_val(s.drop_first())) by (nonlinear_arith)
            requires
                v == s[0] as nat + 256 * le_val(s.drop_first()),
                s[0] < 256,
        ;
        lemma_le_bytes_of_le_val(s.drop_first());
        assert(le_bytes(le_val(s), s.len()) =~= s);
    }
}

/// Appending a byte raises the value it stands for by that byte times the
/// weight of the new position.
pub proof fn lemma_le_val_snoc(s: Seq<u8>, b: u8)
    ensures
        le_val(s.push(b)) == le_val(s) + b * pow256(s.len()),
    decreases s.len(),
{
    let u = s.push(b);
    assert(u[s.len() as int] == b);
    if s.len() == 0 {
        assert(u.drop_first() =~= Seq::<u8>::empty());
        assert(le_val(u) == u[0] as nat + 256 * le_val(u.drop_first()));
        assert(le_val(u) == b);
        assert(le_val(s) == 0);
        assert(pow256(s.len()) == 1);
        assert(le_val(s.push(b)) == le_val(s) + b * pow256(s.len()));
    } else {
        let t = s.drop_first();
        assert(u[0] == s[0]);
        assert(u.drop_first() =~= t.push(b));
        lemma_le_val_snoc(t, b);
        assert(le_val(u) == u[0] as nat + 256 * le_val(u.drop_first()));
        assert(le_val(u) == s[0] as nat + 256 * le_val(t.push(b)));
        assert(256 * (le_val(t) + b * pow256(t.len())) == 256 * le_val(t) + b * (256 * pow256(
            t.len(),
        ))) by (nonlinear_arith);
        assert(pow256(s.len()) == 256 * pow256(t.len()));
        assert(le_val(s) == s[0] as nat + 256 * le_val(t));
        assert(le_val(s.push(b)) == le_val(s) + b * pow256(s.len()));
    }
}

pub proof fn lemma_pow256_increases(i: nat, j: nat)
    requires
        i <= j,
    ensures
        pow256(i) <= pow256(j),
    decreases j,
{
    if i < j {
        lemma_pow256_increases(i, (j - 1) as nat);
    }
}

/// The prefix-width maxima and the blob ceiling as powers of 256.
pub proof fn lemma_pow256_values()
    ensures
        pow256(1) == 0x100,
        pow256(2) == 0x1_0000,
        pow256(4) == 0x1_0000_0000,
        pow256(8) == 0x1_0000_0000_0000_0000,
{
    reveal_with_fuel(pow256, 9);
}

/// An append-only destination for encoded bytes: a bounded region with a
/// write cursor, finalized into the written prefix.
pub trait Buffer: Sized {
    type Output;

    /// The bytes accepted so far, in order.
    spec fn written(&self) -> Seq<u8>;

    /// How many bytes the region can hold in all.
    spec fn capacity(&self) -> nat;

    /// Well-formedness of the sink.
    spec fn inv(&self) -> bool;

    /// The bytes a finalized sink hands back.
    spec fn output_bytes(out: Self::Output) -> Seq<u8>;

    /// Appends one byte, failing without effect when the region is full.
    fn push(&mut self, data: u8) -> (r: Result<(), Error>)
        requires
            old(self).inv(),
        ensures
            final(self).inv(),
            final(self).capacity() == old(self).capacity(),
            match r {
                Ok(_) => old(self).written().len() < old(self).capacity() && final(self).written()
                    == old(self).written().push(data),
                Err(e) => e == Error::NoSpaceLeft
                    && old(self).written().len() == old(self).capacity()
                    && final(self).written() == old(self).written(),
            },
    ;

    /// Appends a whole slice, all or nothing: when the remaining capacity is
    /// too small, it fails without writing any byte of the slice.
    fn copy_from_slice(&mut self, data: &[u8]) -> (r: Result<(), Error>)
        requires
            old(self).inv(),
        ensures
            final(self).inv(),
            final(self).capacity() == old(self).capacity(),
            match r {
                Ok(_) => old(self).written().len() + data@.len() <= old(self).capacity()
                    && final(self).written() == old(self).written() + data@,
                Err(e) => e == Error::NoSpaceLeft
                    && old(self).written().len() + data@.len() > old(self).capacity()
                    && final(self).written() == old(self).written(),
            },
    ;

    /// Consumes the sink and yields exactly the written prefix; it never
    /// fails on a well-formed sink.
    fn finalize(self) -> (r: Result<Self::Output, Error>)
        requires
            self.inv(),
        ensures
            match r {
                Ok(out) => Self::output_bytes(out) == self.written(),
                Err(_) => false,
            },
    ;
}

/// A sink over an owned fixed-size byte region: bytes land at the cursor,
/// which never passes the region's end.
pub struct Slice {
    pub output: Vec<u8>,
    pub pos: usize,
}

impl Slice {
    /// Wraps a buffer; the whole region is writable and the cursor starts
    /// at its beginning.
    pub fn new(output: Vec<u8>) -> (s: Slice)
        ensures
            s.inv(),
            s.written() == Seq::<u8>::empty(),
            s.capacity() == output@.len(),
    {
        let s = Slice { output, pos: 0 };
        proof {
            assert(s.output@.take(0) =~= Seq::<u8>::empty());
        }
        s
    }
}

impl Buffer for Slice {
    type Output = Vec<u8>;

    open spec fn written(&self) -> Seq<u8> {
        self.output@.take(self.pos as int)
    }

    open spec fn capacity(&self) -> nat {
        self.output@.len()
    }

    open spec fn inv(&self) -> bool {
        self.pos <= self.output@.len()
    }

    open spec fn output_bytes(out: Vec<u8>) -> Seq<u8> {
        out@
    }

    fn push(&mut self, data: u8) -> (r: Result<(), Error>) {
        let ghost pre = *self;
        if self.pos == self.output.len() {
            Err(Error::NoSpaceLeft)
        } else {
            self.output[self.pos] = data;
            self.pos = self.pos + 1;
            proof {
                assert(self.output@.take(self.pos as int) =~= pre.output@.take(
                    pre.pos as int,
                ).push(data));
            }
            Ok(())
        }
    }

    fn copy_from_slice(&mut self, data: &[u8]) -> (r: Result<(), Error>) {
        let ghost pre = *self;
        let cap: usize = self.output.len();
        if cap - self.pos < data.len() {
            return Err(Error::NoSpaceLeft);
        }
        let mut i: usize = 0;
        while i < data.len()
            invariant
                i <= data@.len(),
                pre.pos + data@.len() <= pre.output@.len(),
                pre.output@.len() <= usize::MAX,
                self.pos == pre.pos,
                self.output@.len() == pre.output@.len(),
                self.output@.take(self.pos as int) == pre.output@.take(pre.pos as int),
                self.output@.subrange(self.pos as int, self.pos as int + i) == data@.take(i as int),
            decreases data@.len() - i,
        {
            let ghost mid = *self;
            self.output[self.pos + i] = data[i];
            proof {
                assert(self.output@.take(self.pos as int) =~= mid.output@.take(self.pos as int));
                assert(self.output@.subrange(self.pos as int, self.pos as int + i + 1)
                    =~= mid.output@.subrange(self.pos as int, self.pos as int + i).push(
                    data@[i as int],
                ));
                assert(data@.take(i as int + 1) =~= data@.take(i as int).push(data@[i as int]));
            }
            i = i + 1;
        }
        self.pos = self.pos + data.len();
        proof {
            let n = data@.len() as int;
            assert(data@.take(n) =~= data@);
            assert(self.output@.take(self.pos as int) =~= pre.output@.take(pre.pos as int)
                + data@);
        }
        Ok(())
    }

    fn finalize(self) -> (r: Result<Vec<u8>, Error>) {
        let ghost pre = self;
        let mut out = self.output;
        out.truncate(self.pos);
        proof {
            assert(out@ =~= pre.output@.take(pre.pos as int));
        }
        Ok(out)
    }
}

/// The encoding engine: a sink together with the length-prefix policy
/// applied to every variable-length value of one encode call.
pub struct Serializer<OUT> {
    pub output: OUT,
    pub len_width: LenWidth,
}

/// The serializer after a successful atomic write of `bytes`.
pub open spec fn wrote<OUT: Buffer>(
    pre: Serializer<OUT>,
    post: Serializer<OUT>,
    bytes: Seq<u8>,
) -> bool {
    &&& post.inv()
    &&& post.capacity() == pre.capacity()
    &&& post.len_width == pre.len_width
    &&& pre.written().len() + bytes.len() <= pre.capacity()
    &&& post.written() == pre.written() + bytes
}

/// The serializer after a failed operation that left the sink untouched.
pub open spec fn untouched<OUT: Buffer>(pre: Serializer<OUT>, post: Serializer<OUT>) -> bool {
    &&& post.inv()
    &&& post.capacity() == pre.capacity()
    &&& post.len_width == pre.len_width
    &&& post.written() == pre.written()
}

/// Exact outcome of one atomic write of `bytes`: success exactly when the
/// bytes fit, and no effect on failure.
pub open spec fn write_result<OUT: Buffer>(
    pre: Serializer<OUT>,
    post: Serializer<OUT>,
    bytes: Seq<u8>,
    r: Result<(), Error>,
) -> bool {
    match r {
        Ok(_) => wrote(pre, post, bytes),
        Err(e) => e == Error::NoSpaceLeft && pre.written().len() + bytes.len() > pre.capacity()
            && untouched(pre, post),
    }
}

/// The single byte standing for a boolean.
pub open spec fn bool_byte(v: bool) -> nat {
    if v {
        1
    } else {
        0
    }
}

/// The two's-complement image of a signed value in `n` bytes.
pub open spec fn twos_complement(v: int, n: nat) -> nat {
    if v >= 0 {
        v as nat
    } else {
        (v + pow256(n)) as nat
    }
}

/// Exact outcome of writing a count in the configured prefix width: a count
/// over the width's maximum is rejected, otherwise the write is atomic.
pub open spec fn count_write_result<OUT: Buffer>(
    pre: Serializer<OUT>,
    post: Serializer<OUT>,
    count: nat,
    r: Result<(), Error>,
) -> bool {
    match r {
        Ok(_) => count <= pre.len_width.spec_max() && wrote(
            pre,
            post,
            le_bytes(count, pre.len_width.spec_width()),
        ),
        Err(e) => untouched(pre, post) && (if count > pre.len_width.spec_max() {
            e == Error::LenTooLarge
        } else {
            e == Error::NoSpaceLeft && pre.written().len() + pre.len_width.spec_width()
                > pre.capacity()
        }),
    }
}

/// Exact outcome of writing a `w`-byte length prefix followed by `payload`:
/// a payload longer than `max` is rejected outright; otherwise the prefix
/// and the payload are each written atomically in turn, so exhaustion can
/// leave the prefix alone behind, after which the sink must be discarded.
pub open spec fn prefixed_write_result<OUT: Buffer>(
    pre: Serializer<OUT>,
    post: Serializer<OUT>,
    payload: Seq<u8>,
    w: nat,
    max: nat,
    r: Result<(), Error>,
) -> bool {
    let pfx = le_bytes(payload.len(), w);
    &&& post.inv()
    &&& post.capacity() == pre.capacity()
    &&& post.len_width == pre.len_width
    &&& match r {
        Ok(_) => payload.len() <= max && pre.written().len() + w + payload.len() <= pre.capacity()
            && post.written() == pre.written() + pfx + payload,
        Err(e) => if payload.len() > max {
            e == Error::LenTooLarge && post.written() == pre.written()
        } else {
            &&& e == Error::NoSpaceLeft
            &&& pre.written().len() + w + payload.len() > pre.capacity()
            &&& post.written() == (if pre.written().len() + w > pre.capacity() {
                pre.written()
            } else {
                pre.written() + pfx
            })
        },
    }
}

/// Outcome of encoding a fixed-layout record whose whole wire image is
/// `bytes`: success exactly when the image fits; the engine fails fast, so
/// exhaustion may leave a prefix of the image behind and the sink must then
/// be discarded.
pub open spec fn record_write_result<OUT: Buffer>(
    pre: Serializer<OUT>,
    post: Serializer<OUT>,
    bytes: Seq<u8>,
    r: Result<(), Error>,
) -> bool {
    &&& post.inv()
    &&& post.capacity() == pre.capacity()
    &&& post.len_width == pre.len_width
    &&& match r {
        Ok(_) => pre.written().len() + bytes.len() <= pre.capacity() && post.written()
            == pre.written() + bytes,
        Err(e) => e == Error::NoSpaceLeft && pre.written().len() + bytes.len() > pre.capacity()
            && pre.written().is_prefix_of(post.written()),
    }
}

/// A sequence is a prefix of itself extended by anything.
pub proof fn lemma_prefix_extend(s: Seq<u8>, t: Seq<u8>)
    ensures
        s.is_prefix_of(s + t),
        s.is_prefix_of(s),
{
    assert((s + t).take(s.len() as int) =~= s);
    assert(s.take(s.len() as int) =~= s);
}

impl<OUT: Buffer> Serializer<OUT> {
    /// The bytes emitted so far.
    pub open spec fn written(&self) -> Seq<u8> {
        self.output.written()
    }

    /// The sink's total capacity.
    pub open spec fn capacity(&self) -> nat {
        self.output.capacity()
    }

    pub open spec fn inv(&self) -> bool {
        self.output.inv()
    }

    /// Wraps a sink, fixing the length-prefix width for the whole call.
    pub fn new(output: OUT, len_width: LenWidth) -> (s: Serializer<OUT>)
        requires
            output.inv(),
        ensures
            s.inv(),
            s.written() == output.written(),
            s.capacity() == output.capacity(),
            s.len_width == len_width,
    {
        Serializer { output, len_width }
    }

    /// Writes `width` little-endian bytes of `value` in one atomic step.
    fn write_le(&mut self, value: u64, width: usize) -> (r: Result<(), Error>)
        requires
            old(self).inv(),
        ensures
            write_result(*old(self), *final(self), le_bytes(value as nat, width as nat), r),
    {
        let mut buf: Vec<u8> = Vec::new();
        let mut x: u64 = value;
        let mut i: usize = 0;
        while i < width
            invariant
                i <= width,
                buf@.len() == i,
                buf@ + le_bytes(x as nat, (width - i) as nat) == le_bytes(
                    value as nat,
                    width as nat,
                ),
            decreases width - i,
        {
            let ghost buf0 = buf@;
            let ghost x0 = x as nat;
            buf.push((x % 256) as u8);
            x = x / 256;
            i = i + 1;
            proof {
                assert(le_bytes(x0, (width - i + 1) as nat) == seq![(x0 % 256) as u8] + le_bytes(
                    x0 / 256,
                    (width - i) as nat,
                ));
                assert(buf@ + le_bytes(x as nat, (width - i) as nat) =~= buf0 + le_bytes(
                    x0,
                    (width - i + 1) as nat,
                ));
            }
        }
        proof {
            assert(buf@ =~= le_bytes(value as nat, width as nat));
            lemma_le_bytes_len(value as nat, width as nat);
        }
        self.output.copy_from_slice(buf.as_slice())
    }

    /// Writes a length in the configured prefix width, little-endian,
    /// rejecting a length the width cannot represent.
    pub fn push_usize_len(&mut self, value: usize) -> (r: Result<(), Error>)
        requires
            old(self).inv(),
        ensures
            count_write_result(*old(self), *final(self), value as nat, r),
    {
        let len_max: u64 = self.len_width.max();
        if value as u64 > len_max {
            return Err(Error::LenTooLarge);
        }
        let w: usize = self.len_width.width();
        proof {
            lemma_le_bytes_len(value as nat, w as nat);
        }
        self.write_le(value as u64, w)
    }

    /// Writes a policy-width length prefix, then the payload, each atomically.
    fn write_prefixed(&mut self, payload: &[u8]) -> (r: Result<(), Error>)
        requires
            old(self).inv(),
        ensures
            prefixed_write_result(
                *old(self),
                *final(self),
                payload@,
                old(self).len_width.spec_width(),
                old(self).len_width.spec_max(),
                r,
            ),
    {
        let ghost pre = *self;
        match self.push_usize_len(payload.len()) {
            Ok(_) => {}
            Err(e) => {
                return Err(e);
            }
        }
        proof {
            lemma_le_bytes_len(payload@.len(), pre.len_width.spec_width());
        }
        self.output.copy_from_slice(payload)
    }

    /// This format is binary, never human readable.
    pub fn is_human_readable(&self) -> (r: bool)
        ensures
            r == false,
    {
        false
    }

    /// A boolean is one byte: 1 for true, 0 for false.
    pub fn serialize_bool(&mut self, v: bool) -> (r: Result<(), Error>)
        requires
            old(self).inv(),
        ensures
            write_result(*old(self), *final(self), le_bytes(bool_byte(v), 1), r),
    {
        self.serialize_u8(if v {
            1
        } else {
            0
        })
    }

    pub fn serialize_u8(&mut self, v: u8) -> (r: Result<(), Error>)
        requires
            old(self).inv(),
        ensures
            write_result(*old(self), *final(self), le_bytes(v as nat, 1), r),
    {
        self.write_le(v as u64, 1)
    }

    pub fn serialize_u16(&mut self, v: u16) -> (r: Result<(), Error>)
        requires
            old(self).inv(),
        ensures
            write_result(*old(self), *final(self), le_bytes(v as nat, 2), r),
    {
        self.write_le(v as u64, 2)
    }

    pub fn serialize_u32(&mut self, v: u32) -> (r: Result<(), Error>)
        requires
            old(self).inv(),
        ensures
            write_result(*old(self), *final(self), le_bytes(v as nat, 4), r),
    {
        self.write_le(v as u64, 4)
    }

    pub fn serialize_u64(&mut self, v: u64) -> (r: Result<(), Error>)
        requires
            old(self).inv(),
        ensures
            write_result(*old(self), *final(self), le_bytes(v as nat, 8), r),
    {
        self.write_le(v, 8)
    }

    pub fn serialize_i8(&mut self, v: i8) -> (r: Result<(), Error>)
        requires
            old(self).inv(),
        ensures
            write_result(*old(self), *final(self), le_bytes(twos_complement(v as int, 1), 1), r),
    {
        proof {
            lemma_pow256_values();
        }
        let u: u8 = if v >= 0 {
            v as u8
        } else {
            ((v as i16) + 0x100) as u8
        };
        self.write_le(u as u64, 1)
    }

    pub fn serialize_i16(&mut self, v: i16) -> (r: Result<(), Error>)
        requires
            old(self).inv(),
        ensures
            write_result(*old(self), *final(self), le_bytes(twos_complement(v as int, 2), 2), r),
    {
        proof {
            lemma_pow256_values();
        }
        let u: u16 = if v >= 0 {
            v as u16
        } else {
            ((v as i32) + 0x1_0000) as u16
        };
        self.write_le(u as u64, 2)
    }

    pub fn serialize_i32(&mut self, v: i32) -> (r: Result<(), Error>)
        requires
            old(self).inv(),
        ensures
            write_result(*old(self), *final(self), le_bytes(twos_complement(v as int, 4), 4), r),
    {
        proof {
            lemma_pow256_values();
        }
        let u: u32 = if v >= 0 {
            v as u32
        } else {
            ((v as i64) + 0x1_0000_0000) as u32
        };
        self.write_le(u as u64, 4)
    }

    pub fn serialize_i64(&mut self, v: i64) -> (r: Result<(), Error>)
        requires
            old(self).inv(),
        ensures
            write_result(*old(self), *final(self), le_bytes(twos_complement(v as int, 8), 8), r),
    {
        proof {
            lemma_pow256_values();
        }
        let u: u64 = if v >= 0 {
            v as u64
        } else {
            ((v as i128) + 0x1_0000_0000_0000_0000) as u64
        };
        self.write_le(u, 8)
    }

    /// A character is encoded as the UTF-8 text holding just that character:
    /// a policy-width length prefix, then its UTF-8 bytes.
    pub fn serialize_char(&mut self, v: char) -> (r: Result<(), Error>)
        requires
            old(self).inv(),
        ensures
            prefixed_write_result(
                *old(self),
                *final(self),
                encode_utf8(seq![v]),
                old(self).len_width.spec_width(),
                old(self).len_width.spec_max(),
                r,
            ),
    {
        let u: u32 = v as u32;
        let mut buf: Vec<u8> = Vec::new();
        proof {
            char_is_scalar(v);
        }
        if u <= 0x7F {
            assert(u & 0x7F < 256) by (bit_vector);
            buf.push((u & 0x7F) as u8);
        } else if u <= 0x7FF {
            assert((u >> 6) & 0x1F < 256 && u & 0x3F < 256) by (bit_vector);
            buf.push(0xC0 | ((u >> 6) & 0x1F) as u8);
            buf.push(0x80 | (u & 0x3F) as u8);
        } else if u <= 0xFFFF {
            assert((u >> 12) & 0x0F < 256 && (u >> 6) & 0x3F < 256 && u & 0x3F < 256)
                by (bit_vector);
            buf.push(0xE0 | ((u >> 12) & 0x0F) as u8);
            buf.push(0x80 | ((u >> 6) & 0x3F) as u8);
            buf.push(0x80 | (u & 0x3F) as u8);
        } else {
            assert((u >> 18) & 0x7 < 256 && (u >> 12) & 0x3F < 256 && (u >> 6) & 0x3F < 256 && u
                & 0x3F < 256) by (bit_vector);
            buf.push(0xF0 | ((u >> 18) & 0x7) as u8);
            buf.push(0x80 | ((u >> 12) & 0x3F) as u8);
            buf.push(0x80 | ((u >> 6) & 0x3F) as u8);
            buf.push(0x80 | (u & 0x3F) as u8);
        }
        proof {
            assert(buf@ =~= encode_scalar(u));
            assert(seq![v][0] == v);
            assert(seq![v].drop_first() =~= Seq::<char>::empty());
            assert(encode_utf8(seq![v]) == encode_scalar(u) + encode_utf8(Seq::<char>::empty()));
            assert(encode_utf8(Seq::<char>::empty()) == Seq::<u8>::empty());
            assert(encode_scalar(u) + Seq::<u8>::empty() =~= encode_scalar(u));
        }
        self.write_prefixed(buf.as_slice())
    }

    /// Text is a policy-width length prefix followed by the raw UTF-8 bytes;
    /// a length the prefix cannot carry is rejected as too large.
    pub fn serialize_str(&mut self, v: &str) -> (r: Result<(), Error>)
        requires
            old(self).inv(),
        ensures
            prefixed_write_result(
                *old(self),
                *final(self),
                v.spec_bytes(),
                old(self).len_width.spec_width(),
                old(self).len_width.spec_max(),
                r,
            ),
    {
        self.write_prefixed(v.as_bytes())
    }

    /// A byte blob always carries a 32-bit little-endian length, whatever
    /// the configured prefix width.
    pub fn serialize_bytes(&mut self, v: &[u8]) -> (r: Result<(), Error>)
        requires
            old(self).inv(),
        ensures
            prefixed_write_result(*old(self), *final(self), v@, 4, 0xffff_ffff, r),
    {
        if v.len() as u64 > 0xffff_ffff {
            return Err(Error::LenTooLarge);
        }
        proof {
            lemma_le_bytes_len(v@.len(), 4);
        }
        match self.write_le(v.len() as u64, 4) {
            Ok(_) => {}
            Err(e) => {
                return Err(e);
            }
        }
        self.output.copy_from_slice(v)
    }

    /// An absent optional is the single byte 0.
    pub fn serialize_none(&mut self) -> (r: Result<(), Error>)
        requires
            old(self).inv(),
        ensures
            write_result(*old(self), *final(self), le_bytes(0, 1), r),
    {
        self.serialize_u8(0)
    }

    /// A present optional is the single byte 1; the caller encodes the inner
    /// value right after.
    pub fn serialize_some(&mut self) -> (r: Result<(), Error>)
        requires
            old(self).inv(),
        ensures
            write_result(*old(self), *final(self), le_bytes(1, 1), r),
    {
        self.serialize_u8(1)
    }

    /// A unit value occupies no bytes.
    pub fn serialize_unit(&mut self) -> (r: Result<(), Error>)
        requires
            old(self).inv(),
        ensures
            r is Ok,
            untouched(*old(self), *final(self)),
    {
        Ok(())
    }

    /// A unit struct occupies no bytes; its name is erased.
    pub fn serialize_unit_struct(&mut self, _name: &'static str) -> (r: Result<(), Error>)
        requires
            old(self).inv(),
        ensures
            r is Ok,
            untouched(*old(self), *final(self)),
    {
        Ok(())
    }

    /// A unit variant is its 32-bit little-endian ordinal; names are erased.
    pub fn serialize_unit_variant(
        &mut self,
        _name: &'static str,
        variant_index: u32,
        _variant: &'static str,
    ) -> (r: Result<(), Error>)
        requires
            old(self).inv(),
        ensures
            write_result(*old(self), *final(self), le_bytes(variant_index as nat, 4), r),
    {
        self.serialize_u32(variant_index)
    }

    /// A newtype struct is transparent: no bytes of its own, the caller
    /// encodes the inner value right after.
    pub fn serialize_newtype_struct(&mut self, _name: &'static str) -> (r: Result<(), Error>)
        requires
            old(self).inv(),
        ensures
            r is Ok,
            untouched(*old(self), *final(self)),
    {
        Ok(())
    }

    /// A newtype variant writes its 32-bit ordinal; the caller encodes the
    /// payload right after.
    pub fn serialize_newtype_variant(
        &mut self,
        _name: &'static str,
        variant_index: u32,
        _variant: &'static str,
    ) -> (r: Result<(), Error>)
        requires
            old(self).inv(),
        ensures
            write_result(*old(self), *final(self), le_bytes(variant_index as nat, 4), r),
    {
        self.serialize_u32(variant_index)
    }

    /// A sequence must announce its element count up front; the count is
    /// written in the configured prefix width, then the caller encodes the
    /// elements in order.
    pub fn serialize_seq(&mut self, len: Option<usize>) -> (r: Result<(), Error>)
        requires
            old(self).inv(),
        ensures
            len is None ==> r == Err::<(), Error>(Error::NoSpaceLeft) && untouched(
                *old(self),
                *final(self),
            ),
            len matches Some(n) ==> count_write_result(*old(self), *final(self), n as nat, r),
    {
        match len {
            None => Err(Error::NoSpaceLeft),
            Some(n) => self.push_usize_len(n),
        }
    }

    /// A tuple's arity is known to both ends: no bytes of its own.
    pub fn serialize_tuple(&mut self, _len: usize) -> (r: Result<(), Error>)
        requires
            old(self).inv(),
        ensures
            r is Ok,
            untouched(*old(self), *final(self)),
    {
        Ok(())
    }

    /// A tuple struct is encoded like a tuple: no bytes of its own.
    pub fn serialize_tuple_struct(&mut self, _name: &'static str, _len: usize) -> (r: Result<
        (),
        Error,
    >)
        requires
            old(self).inv(),
        ensures
            r is Ok,
            untouched(*old(self), *final(self)),
    {
        Ok(())
    }

    /// A tuple variant writes its 32-bit ordinal; the caller encodes the
    /// fields in order right after.
    pub fn serialize_tuple_variant(
        &mut self,
        _name: &'static str,
        variant_index: u32,
        _variant: &'static str,
        _len: usize,
    ) -> (r: Result<(), Error>)
        requires
            old(self).inv(),
        ensures
            write_result(*old(self), *final(self), le_bytes(variant_index as nat, 4), r),
    {
        self.serialize_u32(variant_index)
    }

    /// A map must announce its entry count up front, like a sequence; the
    /// caller encodes key then value for each entry.
    pub fn serialize_map(&mut self, len: Option<usize>) -> (r: Result<(), Error>)
        requires
            old(self).inv(),
        ensures
            len is None ==> r == Err::<(), Error>(Error::NoSpaceLeft) && untouched(
                *old(self),
                *final(self),
            ),
            len matches Some(n) ==> count_write_result(*old(self), *final(self), n as nat, r),
    {
        match len {
            None => Err(Error::NoSpaceLeft),
            Some(n) => self.push_usize_len(n),
        }
    }

    /// A struct is the concatenation of its fields in declared order; names
    /// are erased and no bytes are written here.
    pub fn serialize_struct(&mut self, _name: &'static str, _len: usize) -> (r: Result<(), Error>)
        requires
            old(self).inv(),
        ensures
            r is Ok,
            untouched(*old(self), *final(self)),
    {
        Ok(())
    }

    /// A struct variant writes its 32-bit ordinal; the caller encodes the
    /// fields in order right after.
    pub fn serialize_struct_variant(
        &mut self,
        _name: &'static str,
        variant_index: u32,
        _variant: &'static str,
        _len: usize,
    ) -> (r: Result<(), Error>)
        requires
            old(self).inv(),
        ensures
            write_result(*old(self), *final(self), le_bytes(variant_index as nat, 4), r),
    {
        self.serialize_u32(variant_index)
    }

    /// Generic stringification has no place in this structural format.
    pub fn collect_str(&mut self) -> (r: Result<(), Error>)
        requires
            old(self).inv(),
        ensures
            r == Err::<(), Error>(Error::NoDisplay),
            untouched(*old(self), *final(self)),
    {
        Err(Error::NoDisplay)
    }

    /// Closes a container encoder; every byte was already committed, so
    /// this only signals completion.
    pub fn end(&mut self) -> (r: Result<(), Error>)
        requires
            old(self).inv(),
        ensures
            r is Ok,
            untouched(*old(self), *final(self)),
    {
        Ok(())
    }
}

/// Reads `width` little-endian bytes starting at `pos` back into the value
/// they stand for; the mirror of the serializer's fixed-width writes.
pub fn read_le(data: &[u8], pos: usize, width: usize) -> (r: Option<(u64, usize)>)
    requires
        width <= 8,
    ensures
        match r {
            Some(vp) => pos + width <= data@.len() && vp.1 == pos + width && vp.0 as nat == le_val(
                data@.subrange(pos as int, pos as int + width as int),
            ) && (vp.0 as nat) < pow256(width as nat),
            None => pos + width > data@.len(),
        },
{
    let n: usize = data.len();
    if n < width || pos > n - width {
        return None;
    }
    proof {
        lemma_pow256_values();
        assert(data@.subrange(pos as int, pos as int) =~= Seq::<u8>::empty());
    }
    let mut acc: u128 = 0;
    let mut mult: u128 = 1;
    let mut i: usize = 0;
    while i < width
        invariant
            i <= width <= 8,
            pos + width <= data@.len(),
            data@.len() <= usize::MAX,
            mult == pow256(i as nat),
            acc as nat == le_val(data@.subrange(pos as int, pos as int + i as int)),
            acc < pow256(i as nat),
            pow256(8) == 0x1_0000_0000_0000_0000,
        decreases width - i,
    {
        let b: u8 = data[pos + i];
        proof {
            lemma_pow256_increases((i + 1) as nat, 8);
            assert(acc + b * mult < 256 * pow256(i as nat)) by (nonlinear_arith)
                requires
                    acc < pow256(i as nat),
                    mult == pow256(i as nat),
                    b < 256,
            ;
            assert(data@.subrange(pos as int, pos as int + i as int + 1) =~= data@.subrange(
                pos as int,
                pos as int + i as int,
            ).push(b));
            lemma_le_val_snoc(data@.subrange(pos as int, pos as int + i as int), b);
        }
        acc = acc + (b as u128) * mult;
        mult = mult * 256;
        i = i + 1;
    }
    proof {
        lemma_pow256_increases(width as nat, 8);
    }
    Some((acc as u64, pos + width))
}

/// Reads the single byte at `pos`.
pub fn read_u8(data: &[u8], pos: usize) -> (r: Option<(u8, usize)>)
    ensures
        match r {
            Some(vp) => pos + 1 <= data@.len() && vp.1 == pos + 1 && vp.0 == data@[pos as int],
            None => pos + 1 > data@.len(),
        },
{
    if pos < data.len() {
        Some((data[pos], pos + 1))
    } else {
        None
    }
}

/// Reads a 16-bit little-endian value.
pub fn read_u16_le(data: &[u8], pos: usize) -> (r: Option<(u16, usize)>)
    ensures
        match r {
            Some(vp) => pos + 2 <= data@.len() && vp.1 == pos + 2 && vp.0 as nat == le_val(
                data@.subrange(pos as int, pos as int + 2),
            ),
            None => pos + 2 > data@.len(),
        },
{
    proof {
        lemma_pow256_values();
    }
    match read_le(data, pos, 2) {
        Some((v, p)) => Some((v as u16, p)),
        None => None,
    }
}

/// Reads a 32-bit little-endian value.
pub fn read_u32_le(data: &[u8], pos: usize) -> (r: Option<(u32, usize)>)
    ensures
        match r {
            Some(vp) => pos + 4 <= data@.len() && vp.1 == pos + 4 && vp.0 as nat == le_val(
                data@.subrange(pos as int, pos as int + 4),
            ),
            None => pos + 4 > data@.len(),
        },
{
    proof {
        lemma_pow256_values();
    }
    match read_le(data, pos, 4) {
        Some((v, p)) => Some((v as u32, p)),
        None => None,
    }
}

} // verus!
