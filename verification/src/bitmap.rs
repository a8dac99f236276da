//! Cell codec: expands a dictionary-packed, nibble-delta pixel table into
//! per-cell rasterizable data.
//!
//! The input starts with eight-byte header records, copied verbatim until one
//! whose last byte is the sentinel `0xFF` (phase A); the copied region is
//! topped up to a sixteen-byte boundary with the following source bytes.
//! Phase B walks the records: each record's first two bytes are overwritten
//! in the output with the current output length in sixteen-byte units (the
//! cell's draw-time data pointer), and the record's nibble-packed pixel data
//! is expanded into bitmask-prefixed groups of bias-adjusted pixel bytes,
//! padded to a sixteen-byte boundary per record.
//!
//! The specification mirrors the decoder as total recursive functions over
//! the input bytes; `None` marks every input the decoder rejects.

use vstd::prelude::*;

use crate::errors::ErrorKind;
use crate::graphics::Point;

verus! {

/// The 94-entry luminance ramp added to the palette bias when the bias flag
/// is set, indexed by the record's position in the header table.
pub open spec fn ramp() -> Seq<u8> {
    seq![
        0x00u8, 0x00, 0x00, 0x00, 0x00, 0x00, 0x00, 0x0a, 0x0a, 0x0a, 0x0a, 0x0a, 0x14, 0x14,
        0x14, 0x14, 0x14, 0x1e, 0x1e, 0x1e, 0x1e, 0x1e, 0x28, 0x28, 0x28, 0x32, 0x32, 0x32,
        0x3c, 0x3c, 0x3c, 0x46, 0x46, 0x46, 0x50, 0x50, 0x50, 0x5a, 0x5a, 0x5a, 0x64, 0x64,
        0x64, 0x6e, 0x6e, 0x6e, 0x78, 0x78, 0x78, 0x82, 0x82, 0x82, 0x8c, 0x8c, 0x8c, 0x96,
        0x96, 0x96, 0xa0, 0xa0, 0xa0, 0x00, 0x00, 0x00, 0x00, 0x00, 0x00, 0x00, 0x00, 0x00,
        0x00, 0x00, 0x00, 0x00, 0x00, 0x00, 0x00, 0x00, 0x00, 0x00, 0x00, 0x00, 0x00, 0x00,
        0x00, 0x00, 0x00, 0x00, 0x00, 0x00, 0x01, 0x02, 0x07, 0xff,
    ]
}

/// The luminance ramp as a vector.
pub fn build_ramp() -> (r: Vec<u8>)
    ensures
        r@ == ramp(),
{
    let v: Vec<u8> = vec![
        0x00u8, 0x00, 0x00, 0x00, 0x00, 0x00, 0x00, 0x0a, 0x0a, 0x0a, 0x0a, 0x0a, 0x14, 0x14,
        0x14, 0x14, 0x14, 0x1e, 0x1e, 0x1e, 0x1e, 0x1e, 0x28, 0x28, 0x28, 0x32, 0x32, 0x32,
        0x3c, 0x3c, 0x3c, 0x46, 0x46, 0x46, 0x50, 0x50, 0x50, 0x5a, 0x5a, 0x5a, 0x64, 0x64,
        0x64, 0x6e, 0x6e, 0x6e, 0x78, 0x78, 0x78, 0x82, 0x82, 0x82, 0x8c, 0x8c, 0x8c, 0x96,
        0x96, 0x96, 0xa0, 0xa0, 0xa0, 0x00, 0x00, 0x00, 0x00, 0x00, 0x00, 0x00, 0x00, 0x00,
        0x00, 0x00, 0x00, 0x00, 0x00, 0x00, 0x00, 0x00, 0x00, 0x00, 0x00, 0x00, 0x00, 0x00,
        0x00, 0x00, 0x00, 0x00, 0x00, 0x00, 0x01, 0x02, 0x07, 0xff,
    ];
    proof {
        assert(v@ =~= ramp());
    }
    v
}

/// End of the header region: eight-byte chunks are taken from `pos` until
/// one ends with the sentinel `0xFF` or the input runs out.
pub open spec fn header_end(d: Seq<u8>, pos: int) -> int
    recommends
        0 <= pos <= d.len(),
    decreases d.len() - pos,
{
    if pos < 0 || pos >= d.len() {
        d.len() as int
    } else {
        let end = if pos + 8 <= d.len() {
            pos + 8
        } else {
            d.len() as int
        };
        if d[end - 1] == 0xff || end == d.len() {
            end
        } else {
            header_end(d, end)
        }
    }
}

/// End of the copied region after topping the header up to a sixteen-byte
/// boundary with the following source bytes.
pub open spec fn padded_end(d: Seq<u8>) -> int {
    let hl = header_end(d, 0);
    if (hl / 8) % 2 == 1 {
        if hl + 8 <= d.len() {
            hl + 8
        } else {
            d.len() as int
        }
    } else {
        hl
    }
}

/// Expand one group of up to eight nibble-packed pixels.
///
/// Returns the transparency bitmask bits contributed from `ah` downwards,
/// the emitted pixel bytes, and the source cursor and nibble phase after the
/// group.  `None` when a source read falls outside the input.
pub open spec fn group_spec(
    d: Seq<u8>,
    si: u16,
    first: bool,
    cx: nat,
    ah: u8,
    marker: u8,
    bias: u8,
) -> Option<(u8, Seq<u8>, u16, bool)>
    decreases cx,
{
    if cx == 0 {
        Some((0u8, Seq::empty(), si, first))
    } else if si as int >= d.len() {
        None
    } else {
        let raw = d[si as int];
        let nib = if first {
            (raw >> 4) & 0xf
        } else {
            raw & 0xf
        };
        let si1 = if first {
            si
        } else if si == 0xffff {
            0u16
        } else {
            (si + 1) as u16
        };
        match group_spec(d, si1, !first, (cx - 1) as nat, ah >> 1, marker, bias) {
            None => None,
            Some((mrest, brest, si2, f2)) => {
                if nib != marker {
                    let px = (((nib as u16) + (bias as u16)) % 256) as u8;
                    Some(((ah | mrest), seq![px] + brest, si2, f2))
                } else {
                    Some((mrest, brest, si2, f2))
                }
            },
        }
    }
}

/// Expand one run of `dx` pixels as bitmask-prefixed groups of eight.
pub open spec fn runs_spec(
    d: Seq<u8>,
    si: u16,
    first: bool,
    dx: int,
    marker: u8,
    bias: u8,
) -> Option<(Seq<u8>, u16, bool)>
    recommends
        0 <= dx,
    decreases dx,
{
    let cx = if dx < 8 {
        dx
    } else {
        8
    };
    match group_spec(d, si, first, cx as nat, 0x80, marker, bias) {
        None => None,
        Some((mask, bytes, si1, f1)) => {
            let emitted = seq![mask] + bytes;
            if dx - cx <= 0 {
                Some((emitted, si1, f1))
            } else {
                match runs_spec(d, si1, f1, dx - cx, marker, bias) {
                    None => None,
                    Some((bs2, si2, f2)) => Some((emitted + bs2, si2, f2)),
                }
            }
        },
    }
}

/// Repeat the run `iters` times; the source cursor and nibble phase carry
/// over from one repetition to the next.
pub open spec fn rep_spec(
    d: Seq<u8>,
    si: u16,
    first: bool,
    dx: u16,
    iters: nat,
    marker: u8,
    bias: u8,
) -> Option<(Seq<u8>, u16, bool)>
    decreases iters,
{
    if iters == 0 {
        Some((Seq::empty(), si, first))
    } else {
        match runs_spec(d, si, first, dx as int, marker, bias) {
            None => None,
            Some((bs, si1, f1)) => {
                match rep_spec(d, si1, f1, dx, (iters - 1) as nat, marker, bias) {
                    None => None,
                    Some((bs2, si2, f2)) => Some((bs + bs2, si2, f2)),
                }
            },
        }
    }
}

/// Zero padding to the next sixteen-byte boundary.
pub open spec fn pad16(s: Seq<u8>) -> Seq<u8> {
    if s.len() % 16 == 0 {
        s
    } else {
        s + Seq::new((16 - s.len() % 16) as nat, |i: int| 0u8)
    }
}

/// Process the header records from `bx` on, threading the output buffer.
///
/// Each record patches its own first two output bytes with the output length
/// in sixteen-byte units, expands its pixel data, pads, and stops after the
/// record whose last byte is `0xFF`.
pub open spec fn decode_records(d: Seq<u8>, buf: Seq<u8>, bx: int, flag: u8, base: u8) -> Option<
    Seq<u8>,
>
    recommends
        0 <= bx,
    decreases d.len() + 8 - bx,
{
    if bx < 0 || bx + 8 > d.len() || bx + 2 > buf.len() {
        None
    } else if flag != 0 && bx / 8 >= 94 {
        None
    } else {
        let tmp = buf.len() / 16;
        let buf1 = buf.update(bx, (tmp % 256) as u8).update(bx + 1, ((tmp / 256) % 256) as u8);
        let bias = if flag == 0 {
            base
        } else {
            (((base as u16) + (ramp()[bx / 8] as u16)) % 256) as u8
        };
        let si0 = (((d[bx + 1] as u16) << 8 | (d[bx] as u16)) << 4) as u16;
        let dx0 = ((d[bx + 3] as u16) << 8 | (d[bx + 2] as u16)) as u16;
        let r0 = ((d[bx + 5] as u16) << 8 | (d[bx + 4] as u16)) as u16;
        let iters: nat = if r0 == 0 {
            65536nat
        } else {
            r0 as nat
        };
        let marker = d[bx + 6];
        match rep_spec(d, si0, true, dx0, iters, marker, bias) {
            None => None,
            Some((body, si2, f2)) => {
                let buf3 = pad16(buf1 + body);
                if d[bx + 7] == 0xff {
                    Some(buf3)
                } else {
                    decode_records(d, buf3, bx + 8, flag, base)
                }
            },
        }
    }
}

/// The value `decode` returns: the padded header region followed by each
/// record's expanded pixel data; `None` on every input the decoder rejects.
pub open spec fn decode_spec(d: Seq<u8>, flag: u8, base: u8) -> Option<Seq<u8>> {
    decode_records(d, d.take(padded_end(d)), 0, flag, base)
}

/// One run of the blitter: skip `n` destination pixels, or draw `n` pixels
/// from consecutive source bytes.
#[derive(Clone, Copy, Debug, PartialEq, Eq, Structural)]
pub enum Code {
    Skip(u8),
    Draw(u8),
}

/// Bit `i` of `b`, scanning from the most significant bit down.
pub open spec fn bit_at(b: u8, i: int) -> bool
    recommends
        0 <= i < 8,
{
    (b >> ((7 - i) as u8)) & 1 == 1
}

/// The bit pattern of `b`, most significant bit first.
pub open spec fn byte_bits(b: u8) -> Seq<bool> {
    Seq::new(8, |i: int| bit_at(b, i))
}

/// Length of the leading run of equal bits.
pub open spec fn run_len(s: Seq<bool>) -> nat
    decreases s.len(),
{
    if s.len() == 0 {
        0
    } else if s.len() >= 2 && s[1] == s[0] {
        (1 + run_len(s.skip(1))) as nat
    } else {
        1
    }
}

/// The maximal-run decomposition of a bit pattern: consecutive equal bits
/// coalesce into one run, a set bit meaning draw and a clear bit skip.
pub open spec fn runs_of(s: Seq<bool>) -> Seq<Code>
    decreases s.len(),
{
    if s.len() == 0 {
        Seq::empty()
    } else {
        let n0 = run_len(s);
        let n = if n0 < 1 {
            1
        } else if n0 > s.len() {
            s.len() as int
        } else {
            n0 as int
        };
        let c = if s[0] {
            Code::Draw(n as u8)
        } else {
            Code::Skip(n as u8)
        };
        seq![c] + runs_of(s.skip(n))
    }
}

/// A run's pixel count.
pub open spec fn code_len(c: Code) -> int {
    match c {
        Code::Skip(n) => n as int,
        Code::Draw(n) => n as int,
    }
}

/// A run's bit: draw runs come from set bits.
pub open spec fn code_bit(c: Code) -> bool {
    c is Draw
}

/// Total pixel count of a run sequence.
pub open spec fn runs_total(rs: Seq<Code>) -> int
    decreases rs.len(),
{
    if rs.len() == 0 {
        0
    } else {
        code_len(rs[0]) + runs_total(rs.drop_first())
    }
}

/// The bit pattern a run sequence stands for.
pub open spec fn rebuild(rs: Seq<Code>) -> Seq<bool>
    decreases rs.len(),
{
    if rs.len() == 0 {
        Seq::empty()
    } else {
        Seq::new(code_len(rs[0]) as nat, |i: int| code_bit(rs[0])) + rebuild(rs.drop_first())
    }
}

/// The leading run: at least one bit, all equal to the first, and it stops
/// at the first differing bit.
pub proof fn lemma_run_len_char(s: Seq<bool>)
    requires
        s.len() >= 1,
    ensures
        1 <= run_len(s) <= s.len(),
        forall|i: int| 0 <= i < run_len(s) ==> #[trigger] s[i] == s[0],
        run_len(s) < s.len() ==> s[run_len(s) as int] != s[0],
    decreases s.len(),
{
    if s.len() >= 2 && s[1] == s[0] {
        lemma_run_len_char(s.skip(1));
        assert forall|i: int| 0 <= i < run_len(s) implies #[trigger] s[i] == s[0] by {
            if i >= 1 {
                assert(s.skip(1)[i - 1] == s[i]);
            }
        }
        if run_len(s) < s.len() {
            assert(s.skip(1)[run_len(s) - 1] == s[run_len(s) as int]);
        }
    }
}

/// The converse: a maximal equal prefix of length `k` is the leading run.
pub proof fn lemma_run_len_from(s: Seq<bool>, k: int)
    requires
        1 <= k <= s.len(),
        forall|i: int| 0 <= i < k ==> #[trigger] s[i] == s[0],
        k < s.len() ==> s[k] != s[0],
    ensures
        run_len(s) == k,
    decreases s.len(),
{
    if s.len() >= 2 && s[1] == s[0] {
        assert(k >= 2) by {
            if k == 1 {
                assert(s[1] != s[0]);
            }
        }
        assert forall|i: int| 0 <= i < k - 1 implies #[trigger] s.skip(1)[i] == s.skip(1)[0] by {
            assert(s.skip(1)[i] == s[i + 1]);
            assert(s.skip(1)[0] == s[1]);
        }
        if k - 1 < s.skip(1).len() {
            assert(s.skip(1)[k - 1] == s[k]);
        }
        lemma_run_len_from(s.skip(1), k - 1);
    } else if s.len() >= 2 {
        assert(k == 1) by {
            if k >= 2 {
                assert(s[1] == s[0]);
            }
        }
    }
}

/// Run decomposition partitions the bit pattern: the run lengths add up to
/// the pattern's length, and rebuilding the pattern from the runs gives the
/// pattern back.
pub proof fn lemma_runs_partition(s: Seq<bool>)
    requires
        s.len() <= 255,
    ensures
        runs_total(runs_of(s)) == s.len(),
        rebuild(runs_of(s)) == s,
    decreases s.len(),
{
    if s.len() > 0 {
        lemma_run_len_char(s);
        let n = run_len(s) as int;
        let c = if s[0] {
            Code::Draw(n as u8)
        } else {
            Code::Skip(n as u8)
        };
        let rs = runs_of(s);
        assert(rs == seq![c] + runs_of(s.skip(n)));
        assert(rs[0] == c);
        assert(rs.drop_first() =~= runs_of(s.skip(n)));
        lemma_runs_partition(s.skip(n));
        assert(code_len(c) == n);
        assert(rebuild(rs) == Seq::new(n as nat, |i: int| code_bit(c)) + rebuild(
            runs_of(s.skip(n)),
        ));
        assert(rebuild(rs) =~= s) by {
            assert(forall|i: int|
                0 <= i < n ==> Seq::new(n as nat, |j: int| code_bit(c))[i] == s[i]);
            assert(forall|i: int| n <= i < s.len() ==> rebuild(rs)[i] == s.skip(n)[i - n]);
        }
    }
}

/// Two bytes with the same bit pattern are the same byte.
pub proof fn lemma_byte_bits_injective(a: u8, b: u8)
    requires
        byte_bits(a) == byte_bits(b),
    ensures
        a == b,
{
    assert forall|i: int| 0 <= i < 8 implies bit_at(a, i) == bit_at(b, i) by {
        assert(byte_bits(a)[i] == bit_at(a, i));
        assert(byte_bits(b)[i] == bit_at(b, i));
        assert(byte_bits(a)[i] == byte_bits(b)[i]);
    }
    assert(((a >> 7u8) & 1 == 1) == ((b >> 7u8) & 1 == 1) && ((a >> 6u8) & 1 == 1) == ((b
        >> 6u8) & 1 == 1) && ((a >> 5u8) & 1 == 1) == ((b >> 5u8) & 1 == 1) && ((a >> 4u8) & 1
        == 1) == ((b >> 4u8) & 1 == 1) && ((a >> 3u8) & 1 == 1) == ((b >> 3u8) & 1 == 1) && ((a
        >> 2u8) & 1 == 1) == ((b >> 2u8) & 1 == 1) && ((a >> 1u8) & 1 == 1) == ((b >> 1u8) & 1
        == 1) && ((a >> 0u8) & 1 == 1) == ((b >> 0u8) & 1 == 1) ==> a == b) by (bit_vector);
    assert(bit_at(a, 0) == ((a >> 7u8) & 1 == 1));
    assert(bit_at(a, 1) == ((a >> 6u8) & 1 == 1));
    assert(bit_at(a, 2) == ((a >> 5u8) & 1 == 1));
    assert(bit_at(a, 3) == ((a >> 4u8) & 1 == 1));
    assert(bit_at(a, 4) == ((a >> 3u8) & 1 == 1));
    assert(bit_at(a, 5) == ((a >> 2u8) & 1 == 1));
    assert(bit_at(a, 6) == ((a >> 1u8) & 1 == 1));
    assert(bit_at(a, 7) == ((a >> 0u8) & 1 == 1));
    assert(bit_at(b, 0) == ((b >> 7u8) & 1 == 1));
    assert(bit_at(b, 1) == ((b >> 6u8) & 1 == 1));
    assert(bit_at(b, 2) == ((b >> 5u8) & 1 == 1));
    assert(bit_at(b, 3) == ((b >> 4u8) & 1 == 1));
    assert(bit_at(b, 4) == ((b >> 3u8) & 1 == 1));
    assert(bit_at(b, 5) == ((b >> 2u8) & 1 == 1));
    assert(bit_at(b, 6) == ((b >> 1u8) & 1 == 1));
    assert(bit_at(b, 7) == ((b >> 0u8) & 1 == 1));
}

/// Completeness of the run table: for every byte value, the run lengths add
/// up to eight, and the runs reproduce the byte's bit pattern exactly, so
/// the decomposition determines the byte.
pub proof fn lemma_opcode_table_complete(b: u8)
    ensures
        runs_total(runs_of(byte_bits(b))) == 8,
        rebuild(runs_of(byte_bits(b))) == byte_bits(b),
        forall|a: u8| rebuild(runs_of(byte_bits(a))) == byte_bits(b) ==> a == b,
{
    lemma_runs_partition(byte_bits(b));
    assert forall|a: u8| rebuild(runs_of(byte_bits(a))) == byte_bits(b) implies a == b by {
        lemma_runs_partition(byte_bits(a));
        lemma_byte_bits_injective(a, b);
    }
}

/// At most one run per bit.
pub proof fn lemma_runs_count(s: Seq<bool>)
    ensures
        runs_of(s).len() <= s.len(),
    decreases s.len(),
{
    if s.len() > 0 {
        lemma_run_len_char(s);
        let n = run_len(s) as int;
        lemma_runs_count(s.skip(n));
    }
}

/// The run decomposition of one byte's bit pattern.
pub fn opcode_runs(b: u8) -> (r: Vec<Code>)
    ensures
        r@ == runs_of(byte_bits(b)),
        r@.len() <= 8,
{
    let ghost bits = byte_bits(b);
    let mut r: Vec<Code> = Vec::new();
    let mut pos: u8 = 0;
    proof {
        assert(Seq::<Code>::empty() + runs_of(bits.skip(0)) =~= runs_of(bits.skip(0)));
        assert(bits.skip(0) =~= bits);
    }
    while pos < 8
        invariant
            pos <= 8,
            runs_of(bits) == r@ + runs_of(bits.skip(pos as int)),
            bits == byte_bits(b),
        decreases 8 - pos,
    {
        let cur = (b >> (7 - pos)) & 1;
        proof {
            assert(bits.skip(pos as int)[0] == bit_at(b, pos as int));
        }
        let mut end: u8 = pos + 1;
        while end < 8 && ((b >> (7 - end)) & 1) == cur
            invariant
                pos < end <= 8,
                cur == (b >> ((7 - pos) as u8)) & 1,
                forall|i: int| pos <= i < end ==> bit_at(b, i) == bit_at(b, pos as int),
                bits == byte_bits(b),
            decreases 8 - end,
        {
            proof {
                assert(((b >> ((7 - end) as u8)) & 1 == cur) ==> (bit_at(b, end as int) == bit_at(
                    b,
                    pos as int,
                )));
            }
            end = end + 1;
        }
        proof {
            let tail = bits.skip(pos as int);
            let k = end - pos;
            assert forall|i: int| 0 <= i < k implies #[trigger] tail[i] == tail[0] by {
                assert(tail[i] == bit_at(b, pos + i));
            }
            if k < tail.len() {
                assert(tail[k as int] == bit_at(b, end as int));
                assert(bit_at(b, end as int) != bit_at(b, pos as int)) by {
                    if end < 8 {
                        assert(((b >> ((7 - end) as u8)) & 1) != cur);
                        assert(((b >> ((7 - end) as u8)) & 1 == 1) != ((b >> ((7 - pos) as u8)) & 1
                            == 1)) by (bit_vector)
                            requires
                                ((b >> ((7 - end) as u8)) & 1) != ((b >> ((7 - pos) as u8)) & 1),
                                end < 8u8,
                                pos < 8u8,
                        ;
                    }
                }
            }
            lemma_run_len_from(tail, k as int);
        }
        let n = end - pos;
        let c = if cur == 1 {
            Code::Draw(n)
        } else {
            Code::Skip(n)
        };
        proof {
            let tail = bits.skip(pos as int);
            assert(tail[0] == ((b >> ((7 - pos) as u8)) & 1 == 1));
            assert((cur == 1) == tail[0]) by {
                assert(cur == (b >> ((7 - pos) as u8)) & 1);
                assert(((b >> ((7 - pos) as u8)) & 1 == 1) == (cur == 1));
            }
            assert(runs_of(tail) == seq![c] + runs_of(tail.skip(n as int)));
            assert(tail.skip(n as int) =~= bits.skip(end as int));
            assert((r@ + seq![c]) + runs_of(bits.skip(end as int)) =~= r@ + (seq![c] + runs_of(
                bits.skip(end as int),
            )));
        }
        r.push(c);
        pos = end;
    }
    proof {
        assert(bits.skip(8) =~= Seq::<bool>::empty());
        assert(runs_of(bits) =~= r@ + Seq::<Code>::empty());
        assert(r@ =~= runs_of(bits));
        lemma_runs_count(bits);
    }
    r
}

/// The full 256-entry run table, one decomposition per byte value.
pub fn create_table() -> (r: Vec<Vec<Code>>)
    ensures
        r@.len() == 256,
        forall|i: int| 0 <= i < 256 ==> #[trigger] r@[i]@ == runs_of(byte_bits(i as u8)),
{
    let mut r: Vec<Vec<Code>> = Vec::new();
    let mut i: usize = 0;
    while i < 256
        invariant
            i <= 256,
            r@.len() == i,
            forall|j: int| 0 <= j < i ==> #[trigger] r@[j]@ == runs_of(byte_bits(j as u8)),
        decreases 256 - i,
    {
        r.push(opcode_runs(i as u8));
        i = i + 1;
    }
    r
}

/// A palette entry as a screen pixel: opaque, with the palette's six-bit
/// channels scaled up by a left shift of two.
pub open spec fn pixel_color(pal: Seq<u8>, v: u8) -> u32
    recommends
        v * 3 + 3 <= pal.len(),
{
    0xff000000u32 | (((pal[v as int * 3] << 2) as u32) << 16) | (((pal[v as int * 3 + 1]
        << 2) as u32) << 8) | ((pal[v as int * 3 + 2] << 2) as u32)
}

/// Draw `n` pixels from consecutive source bytes: the writes, then the
/// source position and destination cursor after the run.  `None` when the
/// source, the palette or the destination runs out.
pub open spec fn draw_run(
    d: Seq<u8>,
    pal: Seq<u8>,
    sp: int,
    offset: int,
    n: nat,
    buf_len: int,
) -> Option<(Seq<(usize, u32)>, int, int)>
    decreases n,
{
    if n == 0 {
        Some((Seq::empty(), sp, offset))
    } else if sp < 0 || sp >= d.len() {
        None
    } else {
        let v = d[sp];
        if v as int * 3 + 3 > pal.len() {
            None
        } else if offset < 0 || offset >= buf_len {
            None
        } else {
            match draw_run(d, pal, sp + 1, offset + 1, (n - 1) as nat, buf_len) {
                None => None,
                Some((ws, sp2, off2)) => Some(
                    (seq![(offset as usize, pixel_color(pal, v))] + ws, sp2, off2),
                ),
            }
        }
    }
}

/// Apply a run sequence: skips advance the destination cursor, draws emit
/// pixels.
pub open spec fn draw_codes(
    codes: Seq<Code>,
    d: Seq<u8>,
    pal: Seq<u8>,
    sp: int,
    offset: int,
    buf_len: int,
) -> Option<(Seq<(usize, u32)>, int, int)>
    decreases codes.len(),
{
    if codes.len() == 0 {
        Some((Seq::empty(), sp, offset))
    } else {
        let one = match codes[0] {
            Code::Skip(n) => Some((Seq::<(usize, u32)>::empty(), sp, offset + n)),
            Code::Draw(n) => draw_run(d, pal, sp, offset, n as nat, buf_len),
        };
        match one {
            None => None,
            Some((ws, sp1, off1)) => match draw_codes(
                codes.drop_first(),
                d,
                pal,
                sp1,
                off1,
                buf_len,
            ) {
                None => None,
                Some((ws2, sp2, off2)) => Some((ws + ws2, sp2, off2)),
            },
        }
    }
}

/// Blit `reps` bitmask-driven chunks of one row.
pub open spec fn draw_chunks(
    d: Seq<u8>,
    pal: Seq<u8>,
    sp: int,
    offset: int,
    reps: nat,
    buf_len: int,
) -> Option<(Seq<(usize, u32)>, int, int)>
    decreases reps,
{
    if reps == 0 {
        Some((Seq::empty(), sp, offset))
    } else if sp < 0 || sp >= d.len() {
        None
    } else {
        let mask = d[sp];
        match draw_codes(runs_of(byte_bits(mask)), d, pal, sp + 1, offset, buf_len) {
            None => None,
            Some((ws, sp1, off1)) => match draw_chunks(
                d,
                pal,
                sp1,
                off1,
                (reps - 1) as nat,
                buf_len,
            ) {
                None => None,
                Some((ws2, sp2, off2)) => Some((ws + ws2, sp2, off2)),
            },
        }
    }
}

/// Blit `rows` rows, each starting at its own screen offset.
pub open spec fn draw_rows(
    d: Seq<u8>,
    pal: Seq<u8>,
    sp: int,
    y: int,
    rows: nat,
    xx: int,
    reps: nat,
    buf_len: int,
) -> Option<(Seq<(usize, u32)>, int)>
    decreases rows,
{
    if rows == 0 {
        Some((Seq::empty(), sp))
    } else {
        match draw_chunks(d, pal, sp, y * 320 + xx, reps, buf_len) {
            None => None,
            Some((ws, sp1, off1)) => match draw_rows(
                d,
                pal,
                sp1,
                y + 1,
                (rows - 1) as nat,
                xx,
                reps,
                buf_len,
            ) {
                None => None,
                Some((ws2, sp2)) => Some((ws + ws2, sp2)),
            },
        }
    }
}

/// The ordered pixel writes `Bitmap::draw` performs: the cell's header at
/// `index` names the data offset (in sixteen-byte units), the chunk count
/// per row, and the row count; `None` on every input the blitter rejects.
pub open spec fn draw_spec(
    d: Seq<u8>,
    index: int,
    x: int,
    y: int,
    pal: Seq<u8>,
    buf_len: int,
) -> Option<Seq<(usize, u32)>> {
    let pos = index * 8;
    if pos < 0 || pos + 6 > d.len() {
        None
    } else {
        let op_pos = (((d[pos + 1] as u16) << 8 | (d[pos] as u16)) << 4) as u16;
        let rv = (d[pos + 3] as u16) << 8 | (d[pos + 2] as u16);
        let repeat = (((rv as int + 7) % 65536) / 8) as nat;
        let height = ((d[pos + 5] as u16) << 8 | (d[pos + 4] as u16)) as nat;
        match draw_rows(d, pal, op_pos as int, y, height, x, repeat, buf_len) {
            None => None,
            Some((ws, sp2)) => Some(ws),
        }
    }
}

/// Apply ordered pixel writes to a buffer.
pub open spec fn apply_writes(buf: Seq<u32>, ws: Seq<(usize, u32)>) -> Seq<u32>
    recommends
        forall|k: int| 0 <= k < ws.len() ==> (#[trigger] ws[k]).0 < buf.len(),
    decreases ws.len(),
{
    if ws.len() == 0 {
        buf
    } else {
        apply_writes(buf.update(ws[0].0 as int, ws[0].1), ws.drop_first())
    }
}

/// Applying concatenated writes applies them in order.
proof fn lemma_apply_writes_concat(buf: Seq<u32>, a: Seq<(usize, u32)>, b: Seq<(usize, u32)>)
    ensures
        apply_writes(buf, a + b) == apply_writes(apply_writes(buf, a), b),
    decreases a.len(),
{
    if a.len() == 0 {
        assert(a + b =~= b);
    } else {
        assert((a + b)[0] == a[0]);
        assert((a + b).drop_first() =~= a.drop_first() + b);
        lemma_apply_writes_concat(buf.update(a[0].0 as int, a[0].1), a.drop_first(), b);
    }
}


/// Expand one nibble group, appending the pixel bytes to `tmp`.
fn group_exec(
    data: &[u8],
    si: u16,
    first: bool,
    cx: u8,
    ah: u8,
    marker: u8,
    bias: u8,
    tmp: &mut Vec<u8>,
) -> (r: Result<(u8, u16, bool), ErrorKind>)
    ensures
        match group_spec(data@, si, first, cx as nat, ah, marker, bias) {
            Some(t) => r == Ok::<_, ErrorKind>((t.0, t.2, t.3)) && final(tmp)@ == old(tmp)@ + t.1,
            None => r == Err::<(u8, u16, bool), _>(ErrorKind::DecodeError) ,
        },
    decreases cx,
{
    if cx == 0 {
        proof {
            assert(old(tmp)@ + Seq::<u8>::empty() =~= old(tmp)@);
        }
        return Ok((0, si, first));
    }
    if si as usize >= data.len() {
        return Err(ErrorKind::DecodeError);
    }
    let raw = data[si as usize];
    let nib = if first {
        (raw >> 4) & 0xf
    } else {
        raw & 0xf
    };
    let si1 = if first {
        si
    } else if si == 0xffff {
        0u16
    } else {
        si + 1
    };
    if nib != marker {
        let px = (((nib as u16) + (bias as u16)) % 256) as u8;
        tmp.push(px);
        match group_exec(data, si1, !first, cx - 1, ah >> 1, marker, bias, tmp) {
            Ok((mrest, s2, f2)) => {
                proof {
                    let t = group_spec(data@, si1, !first, (cx - 1) as nat, ah >> 1, marker, bias)
                        ->Some_0;
                    assert(tmp@ =~= old(tmp)@ + (seq![px] + t.1));
                }
                Ok((ah | mrest, s2, f2))
            },
            Err(e) => Err(e),
        }
    } else {
        group_exec(data, si1, !first, cx - 1, ah >> 1, marker, bias, tmp)
    }
}

/// Expand one run of `dx` pixels, appending the emitted bytes to `out`.
fn runs_exec(
    data: &[u8],
    si: u16,
    first: bool,
    dx: u16,
    marker: u8,
    bias: u8,
    out: &mut Vec<u8>,
) -> (r: Result<(u16, bool), ErrorKind>)
    ensures
        match runs_spec(data@, si, first, dx as int, marker, bias) {
            Some(t) => r == Ok::<_, ErrorKind>((t.1, t.2)) && final(out)@ == old(out)@ + t.0,
            None => r == Err::<(u16, bool), _>(ErrorKind::DecodeError),
        },
{
    let mut si_c = si;
    let mut f_c = first;
    let mut dx_c = dx;
    loop
        invariant
            out@.len() >= old(out)@.len(),
            out@.subrange(0, old(out)@.len() as int) == old(out)@,
            ({
                let done = out@.skip(old(out)@.len() as int);
                match runs_spec(data@, si_c, f_c, dx_c as int, marker, bias) {
                    Some(t) => runs_spec(data@, si, first, dx as int, marker, bias) == Some(
                        (done + t.0, t.1, t.2),
                    ),
                    None => runs_spec(data@, si, first, dx as int, marker, bias) is None,
                }
            }),
        decreases dx_c,
    {
        let ghost done0 = out@.skip(old(out)@.len() as int);
        let cx: u8 = if dx_c < 8 {
            dx_c as u8
        } else {
            8
        };
        let mut tmp: Vec<u8> = Vec::new();
        match group_exec(data, si_c, f_c, cx, 0x80, marker, bias, &mut tmp) {
            Err(e) => {
                return Err(e);
            },
            Ok((mask, s1, f1)) => {
                let ghost t = group_spec(data@, si_c, f_c, cx as nat, 0x80, marker, bias)->Some_0;
                out.push(mask);
                out.append(&mut tmp);
                proof {
                    assert(out@ =~= old(out)@ + (done0 + (seq![mask] + t.1)));
                    assert(out@.subrange(0, old(out)@.len() as int) =~= old(out)@);
                    assert(out@.skip(old(out)@.len() as int) =~= done0 + (seq![mask] + t.1));
                }
                if dx_c <= cx as u16 {
                    proof {
                        let rt = runs_spec(data@, si_c, f_c, dx_c as int, marker, bias)->Some_0;
                        assert(done0 + rt.0 =~= out@.skip(old(out)@.len() as int));
                    }
                    return Ok((s1, f1));
                }
                proof {
                    let whole = runs_spec(data@, si, first, dx as int, marker, bias);
                    let rest = runs_spec(data@, s1, f1, dx_c - cx, marker, bias);
                    if rest is Some {
                        assert((done0 + (seq![mask] + t.1)) + rest->Some_0.0 =~= done0 + ((
                        seq![mask] + t.1) + rest->Some_0.0));
                    }
                }
                dx_c = dx_c - cx as u16;
                si_c = s1;
                f_c = f1;
            },
        }
    }
}

/// Repeat the run `iters` times, appending the emitted bytes to `out`.
fn rep_exec(
    data: &[u8],
    si: u16,
    first: bool,
    dx: u16,
    iters: u32,
    marker: u8,
    bias: u8,
    out: &mut Vec<u8>,
) -> (r: Result<(u16, bool), ErrorKind>)
    ensures
        match rep_spec(data@, si, first, dx, iters as nat, marker, bias) {
            Some(t) => r == Ok::<_, ErrorKind>((t.1, t.2)) && final(out)@ == old(out)@ + t.0,
            None => r == Err::<(u16, bool), _>(ErrorKind::DecodeError),
        },
{
    let mut si_c = si;
    let mut f_c = first;
    let mut left = iters;
    loop
        invariant
            out@.len() >= old(out)@.len(),
            out@.subrange(0, old(out)@.len() as int) == old(out)@,
            ({
                let done = out@.skip(old(out)@.len() as int);
                match rep_spec(data@, si_c, f_c, dx, left as nat, marker, bias) {
                    Some(t) => rep_spec(data@, si, first, dx, iters as nat, marker, bias) == Some(
                        (done + t.0, t.1, t.2),
                    ),
                    None => rep_spec(data@, si, first, dx, iters as nat, marker, bias) is None,
                }
            }),
        decreases left,
    {
        let ghost done0 = out@.skip(old(out)@.len() as int);
        if left == 0 {
            proof {
                assert(done0 + Seq::<u8>::empty() =~= done0);
            }
            return Ok((si_c, f_c));
        }
        match runs_exec(data, si_c, f_c, dx, marker, bias, out) {
            Err(e) => {
                return Err(e);
            },
            Ok((s1, f1)) => {
                proof {
                    let t = runs_spec(data@, si_c, f_c, dx as int, marker, bias)->Some_0;
                    assert(out@ =~= old(out)@ + (done0 + t.0));
                    assert(out@.subrange(0, old(out)@.len() as int) =~= old(out)@);
                    assert(out@.skip(old(out)@.len() as int) =~= done0 + t.0);
                    let rest = rep_spec(data@, s1, f1, dx, (left - 1) as nat, marker, bias);
                    if rest is Some {
                        assert((done0 + t.0) + rest->Some_0.0 =~= done0 + (t.0 + rest->Some_0.0));
                    }
                }
                si_c = s1;
                f_c = f1;
                left = left - 1;
            },
        }
    }
}

/// Expand a dictionary-unpacked cell table into rasterizable per-cell data.
///
/// `flag` selects the positional luminance ramp; `base` is the palette bias
/// added to every non-transparent pixel.  Fails with `DecodeError` exactly
/// when the decoder's model rejects the input (a read past the end of the
/// source, a header table without room for a record's pointer, or a ramp
/// index past the table).
pub fn decode(data: &[u8], flag: u8, base: u8) -> (r: Result<Vec<u8>, ErrorKind>)
    ensures
        match r {
            Ok(v) => decode_spec(data@, flag, base) == Some(v@),
            Err(e) => decode_spec(data@, flag, base) is None && e == ErrorKind::DecodeError,
        },
{
    let ghost d = data@;

    // Phase A: copy eight-byte header records until the sentinel.
    let mut buf: Vec<u8> = Vec::new();
    let mut pos: usize = 0;
    let mut stop = false;
    proof {
        assert(buf@ =~= d.take(0));
    }
    while !stop && pos < data.len()
        invariant
            0 <= pos <= d.len(),
            data@ == d,
            buf@ == d.take(pos as int),
            !stop ==> header_end(d, 0) == header_end(d, pos as int),
            stop ==> header_end(d, 0) == pos as int,
        decreases d.len() - pos,
    {
        let end = if data.len() - pos >= 8 {
            pos + 8
        } else {
            data.len()
        };
        let mut k = pos;
        while k < end
            invariant
                pos <= k <= end,
                end <= d.len(),
                data@ == d,
                buf@ == d.take(k as int),
            decreases end - k,
        {
            buf.push(data[k]);
            proof {
                assert(buf@ =~= d.take(k + 1));
            }
            k = k + 1;
        }
        if data[end - 1] == 0xff {
            stop = true;
        }
        pos = end;
    }
    proof {
        assert(header_end(d, 0) == pos as int);
    }

    // Top the header up to a sixteen-byte boundary with the next source bytes.
    if (pos / 8) % 2 == 1 {
        let pe = if data.len() - pos >= 8 {
            pos + 8
        } else {
            data.len()
        };
        let mut k = pos;
        while k < pe
            invariant
                pos <= k <= pe,
                pe <= d.len(),
                data@ == d,
                buf@ == d.take(k as int),
            decreases pe - k,
        {
            buf.push(data[k]);
            proof {
                assert(buf@ =~= d.take(k + 1));
            }
            k = k + 1;
        }
        proof {
            assert(buf@ == d.take(padded_end(d)));
        }
    } else {
        proof {
            assert(buf@ == d.take(padded_end(d)));
        }
    }

    // Phase B: expand each record.
    let ramp_v = build_ramp();
    let mut bx: usize = 0;
    loop
        invariant
            0 <= bx <= d.len(),
            data@ == d,
            ramp_v@ == ramp(),
            decode_spec(d, flag, base) == decode_records(d, buf@, bx as int, flag, base),
        decreases d.len() + 8 - bx,
    {
        if data.len() - bx < 8 {
            return Err(ErrorKind::DecodeError);
        }
        if buf.len() < bx + 2 {
            return Err(ErrorKind::DecodeError);
        }
        if flag != 0 && bx / 8 >= 94 {
            return Err(ErrorKind::DecodeError);
        }
        let ghost buf_in = buf@;
        let tmp = buf.len() / 16;
        let b0 = (tmp % 256) as u8;
        let b1 = ((tmp / 256) % 256) as u8;
        buf[bx] = b0;
        buf[bx + 1] = b1;
        let ghost buf1 = buf@;
        proof {
            assert(buf1 == buf_in.update(bx as int, b0).update(bx as int + 1, b1));
        }
        let bias: u8 = if flag == 0 {
            base
        } else {
            (((base as u16) + (ramp_v[bx / 8] as u16)) % 256) as u8
        };
        let si0: u16 = ((data[bx + 1] as u16) << 8 | (data[bx] as u16)) << 4;
        let dx0: u16 = (data[bx + 3] as u16) << 8 | (data[bx + 2] as u16);
        let r0: u16 = (data[bx + 5] as u16) << 8 | (data[bx + 4] as u16);
        let iters: u32 = if r0 == 0 {
            65536
        } else {
            r0 as u32
        };
        let marker = data[bx + 6];
        match rep_exec(data, si0, true, dx0, iters, marker, bias, &mut buf) {
            Err(e) => {
                return Err(e);
            },
            Ok(_) => {},
        }
        let ghost body = rep_spec(d, si0, true, dx0, iters as nat, marker, bias)->Some_0.0;
        let ghost base_s = buf1 + body;
        proof {
            assert(buf@ == base_s);
        }
        let blen = buf.len();
        if blen % 16 != 0 {
            let padn = 16 - blen % 16;
            let mut k: usize = 0;
            proof {
                assert(buf@ =~= base_s + Seq::new(0nat, |i: int| 0u8));
            }
            while k < padn
                invariant
                    k <= padn,
                    buf@ == base_s + Seq::new(k as nat, |i: int| 0u8),
                decreases padn - k,
            {
                buf.push(0);
                k = k + 1;
                proof {
                    assert(buf@ =~= base_s + Seq::new(k as nat, |i: int| 0u8));
                }
            }
            proof {
                assert(buf@ =~= pad16(base_s));
            }
        } else {
            proof {
                assert(buf@ =~= pad16(base_s));
            }
        }
        if data[bx + 7] == 0xff {
            return Ok(buf);
        }
        bx = bx + 8;
    }
}


/// Collect the writes of one draw run.
///
/// `off` is the destination cursor clamped to the buffer length; the ghost
/// `soff` is the unclamped cursor the specification tracks.
fn run_writes(
    d: &[u8],
    pal: &[u8],
    sp: usize,
    off: u64,
    Ghost(soff): Ghost<int>,
    n: u8,
    buf_len: usize,
    ws: &mut Vec<(usize, u32)>,
) -> (r: Result<(usize, u64), ErrorKind>)
    requires
        0 <= soff,
        off as int == (if soff > buf_len as int {
            buf_len as int
        } else {
            soff
        }),
    ensures
        match draw_run(d@, pal@, sp as int, soff, n as nat, buf_len as int) {
            Some(t) => r matches Ok(c) && c.0 == t.1 && c.1 as int == (if t.2 > buf_len as int {
                buf_len as int
            } else {
                t.2
            }) && final(ws)@ == old(ws)@ + t.0 && (forall|k: int|
                0 <= k < t.0.len() ==> (#[trigger] t.0[k]).0 < buf_len),
            None => r == Err::<(usize, u64), _>(ErrorKind::DecodeError),
        },
    decreases n,
{
    if n == 0 {
        proof {
            assert(ws@ =~= old(ws)@ + Seq::<(usize, u32)>::empty());
        }
        return Ok((sp, off));
    }
    if sp >= d.len() {
        return Err(ErrorKind::DecodeError);
    }
    let v = d[sp];
    if (v as usize) * 3 + 3 > pal.len() {
        return Err(ErrorKind::DecodeError);
    }
    if off >= buf_len as u64 {
        return Err(ErrorKind::DecodeError);
    }
    let color: u32 = 0xff000000u32 | (((pal[(v as usize) * 3] << 2) as u32) << 16) | (((pal[(
    v as usize) * 3 + 1] << 2) as u32) << 8) | ((pal[(v as usize) * 3 + 2] << 2) as u32);
    ws.push((off as usize, color));
    proof {
        assert(off as int == soff);
        assert(color == pixel_color(pal@, v));
    }
    let ghost mid = ws@;
    match run_writes(d, pal, sp + 1, off + 1, Ghost(soff + 1), n - 1, buf_len, ws) {
        Ok(c) => {
            proof {
                let t = draw_run(d@, pal@, sp + 1, soff + 1, (n - 1) as nat, buf_len as int)
                    ->Some_0;
                assert(mid == old(ws)@.push((off as usize, color)));
                assert(old(ws)@.push((off as usize, color)) =~= old(ws)@ + seq![
                    ((off as usize, color)),
                ]);
                assert(ws@ =~= old(ws)@ + (seq![((off as usize, color))] + t.0));
            }
            Ok(c)
        },
        Err(e) => Err(e),
    }
}

/// Collect the writes of one run sequence.
fn codes_writes(
    d: &[u8],
    pal: &[u8],
    codes: &Vec<Code>,
    sp: usize,
    off: u64,
    Ghost(soff): Ghost<int>,
    buf_len: usize,
    ws: &mut Vec<(usize, u32)>,
) -> (r: Result<(usize, u64), ErrorKind>)
    requires
        0 <= soff,
        off as int == (if soff > buf_len as int {
            buf_len as int
        } else {
            soff
        }),
    ensures
        match draw_codes(codes@, d@, pal@, sp as int, soff, buf_len as int) {
            Some(t) => r matches Ok(c) && c.0 == t.1 && c.1 as int == (if t.2 > buf_len as int {
                buf_len as int
            } else {
                t.2
            }) && final(ws)@ == old(ws)@ + t.0 && (forall|k: int|
                0 <= k < t.0.len() ==> (#[trigger] t.0[k]).0 < buf_len),
            None => r == Err::<(usize, u64), _>(ErrorKind::DecodeError),
        },
{
    let mut j: usize = 0;
    let mut sp_c = sp;
    let mut off_c = off;
    let ghost mut soff_c: int = soff;
    proof {
        assert(codes@.skip(0) =~= codes@);
        assert(ws@ =~= old(ws)@ + Seq::<(usize, u32)>::empty());
        let whole = draw_codes(codes@, d@, pal@, sp as int, soff, buf_len as int);
        if whole is Some {
            assert(Seq::<(usize, u32)>::empty() + whole->Some_0.0 =~= whole->Some_0.0);
        }
    }
    while j < codes.len()
        invariant
            j <= codes@.len(),
            0 <= soff_c,
            off_c as int == (if soff_c > buf_len as int {
                buf_len as int
            } else {
                soff_c
            }),
            ws@.len() >= old(ws)@.len(),
            ({
                let done = ws@.skip(old(ws)@.len() as int);
                ws@ == old(ws)@ + done && (forall|k: int|
                    0 <= k < done.len() ==> (#[trigger] done[k]).0 < buf_len) && match draw_codes(
                    codes@.skip(j as int),
                    d@,
                    pal@,
                    sp_c as int,
                    soff_c,
                    buf_len as int,
                ) {
                    Some(t) => draw_codes(codes@, d@, pal@, sp as int, soff, buf_len as int)
                        == Some((done + t.0, t.1, t.2)),
                    None => draw_codes(codes@, d@, pal@, sp as int, soff, buf_len as int)
                        is None,
                }
            }),
        decreases codes@.len() - j,
    {
        let ghost done0 = ws@.skip(old(ws)@.len() as int);
        let ghost ws0 = ws@;
        let c = codes[j];
        proof {
            assert(codes@.skip(j as int)[0] == c);
            assert(codes@.skip(j as int).drop_first() =~= codes@.skip(j as int + 1));
        }
        match c {
            Code::Skip(nn) => {
                let t128: u128 = off_c as u128 + nn as u128;
                off_c = if t128 > buf_len as u128 {
                    buf_len as u64
                } else {
                    t128 as u64
                };
                proof {
                    soff_c = soff_c + nn as int;
                    let rest = draw_codes(
                        codes@.skip(j as int + 1),
                        d@,
                        pal@,
                        sp_c as int,
                        soff_c,
                        buf_len as int,
                    );
                    if rest is Some {
                        assert(done0 + (Seq::<(usize, u32)>::empty() + rest->Some_0.0) =~= done0
                            + rest->Some_0.0);
                    }
                }
            },
            Code::Draw(nn) => {
                match run_writes(d, pal, sp_c, off_c, Ghost(soff_c), nn, buf_len, ws) {
                    Err(e) => {
                        return Err(e);
                    },
                    Ok(cc) => {
                        proof {
                            let t = draw_run(
                                d@,
                                pal@,
                                sp_c as int,
                                soff_c,
                                nn as nat,
                                buf_len as int,
                            )->Some_0;
                            assert(ws@ == ws0 + t.0);
                            assert(ws@ =~= old(ws)@ + (done0 + t.0));
                            assert(ws@.skip(old(ws)@.len() as int) =~= done0 + t.0);
                            let rest = draw_codes(
                                codes@.skip(j as int + 1),
                                d@,
                                pal@,
                                cc.0 as int,
                                t.2,
                                buf_len as int,
                            );
                            if rest is Some {
                                assert((done0 + t.0) + rest->Some_0.0 =~= done0 + (t.0
                                    + rest->Some_0.0));
                            }
                            soff_c = t.2;
                        }
                        sp_c = cc.0;
                        off_c = cc.1;
                    },
                }
            },
        }
        j = j + 1;
    }
    proof {
        assert(codes@.skip(codes@.len() as int) =~= Seq::<Code>::empty());
        let done = ws@.skip(old(ws)@.len() as int);
        assert(done + Seq::<(usize, u32)>::empty() =~= done);
    }
    Ok((sp_c, off_c))
}

/// Collect the writes of `reps` chunks of one row.
fn chunks_writes(
    d: &[u8],
    pal: &[u8],
    sp: usize,
    off: u64,
    Ghost(soff): Ghost<int>,
    reps: u16,
    buf_len: usize,
    ws: &mut Vec<(usize, u32)>,
) -> (r: Result<(usize, u64), ErrorKind>)
    requires
        0 <= soff,
        off as int == (if soff > buf_len as int {
            buf_len as int
        } else {
            soff
        }),
    ensures
        match draw_chunks(d@, pal@, sp as int, soff, reps as nat, buf_len as int) {
            Some(t) => r matches Ok(c) && c.0 == t.1 && final(ws)@ == old(ws)@ + t.0 && (
            forall|k: int| 0 <= k < t.0.len() ==> (#[trigger] t.0[k]).0 < buf_len),
            None => r == Err::<(usize, u64), _>(ErrorKind::DecodeError),
        },
{
    let mut left = reps;
    let mut sp_c = sp;
    let mut off_c = off;
    let ghost mut soff_c: int = soff;
    proof {
        assert(ws@ =~= old(ws)@ + Seq::<(usize, u32)>::empty());
        let whole = draw_chunks(d@, pal@, sp as int, soff, reps as nat, buf_len as int);
        if whole is Some {
            assert(Seq::<(usize, u32)>::empty() + whole->Some_0.0 =~= whole->Some_0.0);
        }
    }
    while left > 0
        invariant
            0 <= soff_c,
            off_c as int == (if soff_c > buf_len as int {
                buf_len as int
            } else {
                soff_c
            }),
            ws@.len() >= old(ws)@.len(),
            ({
                let done = ws@.skip(old(ws)@.len() as int);
                ws@ == old(ws)@ + done && (forall|k: int|
                    0 <= k < done.len() ==> (#[trigger] done[k]).0 < buf_len) && match draw_chunks(
                    d@,
                    pal@,
                    sp_c as int,
                    soff_c,
                    left as nat,
                    buf_len as int,
                ) {
                    Some(t) => draw_chunks(d@, pal@, sp as int, soff, reps as nat, buf_len as int)
                        == Some((done + t.0, t.1, t.2)),
                    None => draw_chunks(d@, pal@, sp as int, soff, reps as nat, buf_len as int)
                        is None,
                }
            }),
        decreases left,
    {
        let ghost done0 = ws@.skip(old(ws)@.len() as int);
        let ghost ws0 = ws@;
        if sp_c >= d.len() {
            return Err(ErrorKind::DecodeError);
        }
        let mask = d[sp_c];
        let codes = opcode_runs(mask);
        match codes_writes(d, pal, &codes, sp_c + 1, off_c, Ghost(soff_c), buf_len, ws) {
            Err(e) => {
                return Err(e);
            },
            Ok(cc) => {
                proof {
                    let t = draw_codes(
                        runs_of(byte_bits(mask)),
                        d@,
                        pal@,
                        sp_c + 1,
                        soff_c,
                        buf_len as int,
                    )->Some_0;
                    assert(ws@ == ws0 + t.0);
                    assert(ws@ =~= old(ws)@ + (done0 + t.0));
                    assert(ws@.skip(old(ws)@.len() as int) =~= done0 + t.0);
                    let rest = draw_chunks(
                        d@,
                        pal@,
                        cc.0 as int,
                        t.2,
                        (left - 1) as nat,
                        buf_len as int,
                    );
                    if rest is Some {
                        assert((done0 + t.0) + rest->Some_0.0 =~= done0 + (t.0 + rest->Some_0.0));
                    }
                    soff_c = t.2;
                }
                sp_c = cc.0;
                off_c = cc.1;
            },
        }
        left = left - 1;
    }
    proof {
        let done = ws@.skip(old(ws)@.len() as int);
        assert(done + Seq::<(usize, u32)>::empty() =~= done);
    }
    Ok((sp_c, off_c))
}

/// A decoded cell table, ready to blit.
pub struct Bitmap {
    data: Vec<u8>,
}

impl View for Bitmap {
    type V = Seq<u8>;

    closed spec fn view(&self) -> Seq<u8> {
        self.data@
    }
}

impl Bitmap {
    /// Decode a dictionary-unpacked cell table.
    pub fn from(data: Vec<u8>, par1: u8, par2: u8) -> (r: Result<Bitmap, ErrorKind>)
        ensures
            match r {
                Ok(b) => decode_spec(data@, par1, par2) == Some(b@),
                Err(e) => decode_spec(data@, par1, par2) is None && e == ErrorKind::DecodeError,
            },
    {
        match decode(data.as_slice(), par1, par2) {
            Ok(v) => Ok(Bitmap { data: v }),
            Err(e) => Err(e),
        }
    }

    /// Blit cell `index` at `point` into a row-major screen buffer, using a
    /// 768-byte palette.
    ///
    /// On success the buffer receives exactly the writes of [`draw_spec`];
    /// on failure (a cell header, source, palette or destination read out
    /// of range) the buffer is unchanged.
    pub fn draw(
        &self,
        index: usize,
        point: Point,
        buffer: &mut Vec<u32>,
        palette: &[u8],
    ) -> (r: Result<(), ErrorKind>)
        ensures
            match r {
                Ok(_) => ({
                    let ws = draw_spec(
                        self@,
                        index as int,
                        point.x as int,
                        point.y as int,
                        palette@,
                        old(buffer)@.len() as int,
                    );
                    ws is Some && final(buffer)@ == apply_writes(old(buffer)@, ws->Some_0)
                        && final(buffer)@.len() == old(buffer)@.len()
                }),
                Err(e) => draw_spec(
                    self@,
                    index as int,
                    point.x as int,
                    point.y as int,
                    palette@,
                    old(buffer)@.len() as int,
                ) is None && e == ErrorKind::DecodeError && final(buffer)@ == old(buffer)@,
            },
    {
        let ghost d = self.data@;
        let buf_len = buffer.len();
        let pos128: u128 = index as u128 * 8;
        if pos128 + 6 > self.data.len() as u128 {
            return Err(ErrorKind::DecodeError);
        }
        let pos = (pos128 as usize);
        let op_pos: u16 = ((self.data[pos + 1] as u16) << 8 | (self.data[pos] as u16)) << 4;
        let rv: u16 = (self.data[pos + 3] as u16) << 8 | (self.data[pos + 2] as u16);
        let rsum: u16 = if rv <= 0xfff8 {
            rv + 7
        } else {
            rv - 0xfff9
        };
        let repeat: u16 = rsum / 8;
        let height: u16 = (self.data[pos + 5] as u16) << 8 | (self.data[pos + 4] as u16);
        proof {
            assert(rsum as int == (rv as int + 7) % 65536);
        }

        let mut ws: Vec<(usize, u32)> = Vec::new();
        let mut row: u16 = 0;
        let mut sp_c: usize = op_pos as usize;
        proof {
            assert(ws@ =~= Seq::<(usize, u32)>::empty());
            let whole = draw_rows(
                d,
                palette@,
                op_pos as int,
                point.y as int,
                height as nat,
                point.x as int,
                repeat as nat,
                buf_len as int,
            );
            if whole is Some {
                assert(Seq::<(usize, u32)>::empty() + whole->Some_0.0 =~= whole->Some_0.0);
            }
        }
        while row < height
            invariant
                row <= height,
                d == self.data@,
                buffer@ == old(buffer)@,
                buf_len == buffer@.len(),
                draw_spec(
                    d,
                    index as int,
                    point.x as int,
                    point.y as int,
                    palette@,
                    buf_len as int,
                ) == (match draw_rows(
                    d,
                    palette@,
                    op_pos as int,
                    point.y as int,
                    height as nat,
                    point.x as int,
                    repeat as nat,
                    buf_len as int,
                ) {
                    Some(t) => Some(t.0),
                    None => None::<Seq<(usize, u32)>>,
                }),
                ({
                    let done = ws@;
                    (forall|k: int| 0 <= k < done.len() ==> (#[trigger] done[k]).0 < buf_len)
                        && match draw_rows(
                        d,
                        palette@,
                        sp_c as int,
                        point.y as int + row as int,
                        (height - row) as nat,
                        point.x as int,
                        repeat as nat,
                        buf_len as int,
                    ) {
                        Some(t) => draw_rows(
                            d,
                            palette@,
                            op_pos as int,
                            point.y as int,
                            height as nat,
                            point.x as int,
                            repeat as nat,
                            buf_len as int,
                        ) == Some((done + t.0, t.1)),
                        None => draw_rows(
                            d,
                            palette@,
                            op_pos as int,
                            point.y as int,
                            height as nat,
                            point.x as int,
                            repeat as nat,
                            buf_len as int,
                        ) is None,
                    }
                }),
            decreases height - row,
        {
            let ghost done0 = ws@;
            let ghost soff_row: int = (point.y as int + row as int) * 320 + point.x as int;
            let t128: u128 = (point.y as u128 + row as u128) * 320 + point.x as u128;
            let off_row: u64 = if t128 > buf_len as u128 {
                buf_len as u64
            } else {
                t128 as u64
            };
            proof {
                assert(t128 as int == soff_row);
            }
            match chunks_writes(
                self.data.as_slice(),
                palette,
                sp_c,
                off_row,
                Ghost(soff_row),
                repeat,
                buf_len,
                &mut ws,
            ) {
                Err(e) => {
                    return Err(e);
                },
                Ok(cc) => {
                    proof {
                        let t = draw_chunks(
                            d,
                            palette@,
                            sp_c as int,
                            soff_row,
                            repeat as nat,
                            buf_len as int,
                        )->Some_0;
                        assert(ws@ == done0 + t.0);
                        let rest = draw_rows(
                            d,
                            palette@,
                            cc.0 as int,
                            point.y as int + row as int + 1,
                            (height - row - 1) as nat,
                            point.x as int,
                            repeat as nat,
                            buf_len as int,
                        );
                        if rest is Some {
                            assert((done0 + t.0) + rest->Some_0.0 =~= done0 + (t.0
                                + rest->Some_0.0));
                        }
                    }
                    sp_c = cc.0;
                },
            }
            row = row + 1;
        }
        proof {
            let done = ws@;
            assert(done + Seq::<(usize, u32)>::empty() =~= done);
            assert(draw_spec(
                d,
                index as int,
                point.x as int,
                point.y as int,
                palette@,
                buf_len as int,
            ) == Some(done));
        }

        // Apply the collected writes in order.
        let ghost all = ws@;
        let mut k: usize = 0;
        proof {
            assert(all.take(0) =~= Seq::<(usize, u32)>::empty());
        }
        while k < ws.len()
            invariant
                k <= ws@.len(),
                all == ws@,
                forall|j: int| 0 <= j < ws@.len() ==> (#[trigger] ws@[j]).0 < buf_len,
                buffer@.len() == buf_len,
                buffer@ == apply_writes(old(buffer)@, all.take(k as int)),
            decreases ws@.len() - k,
        {
            let w = ws[k];
            buffer[w.0] = w.1;
            proof {
                let pre = all.take(k as int);
                let one = seq![all[k as int]];
                assert(all.take(k as int + 1) =~= pre + one);
                lemma_apply_writes_concat(old(buffer)@, pre, one);
                assert(one[0] == all[k as int]);
                assert(one.drop_first() =~= Seq::<(usize, u32)>::empty());
                let mid_buf = apply_writes(old(buffer)@, pre);
                assert(apply_writes(mid_buf, one) == apply_writes(
                    mid_buf.update(one[0].0 as int, one[0].1),
                    one.drop_first(),
                ));
                assert(apply_writes(mid_buf.update(one[0].0 as int, one[0].1), one.drop_first())
                    == mid_buf.update(one[0].0 as int, one[0].1));
            }
            k = k + 1;
        }
        proof {
            assert(all.take(ws@.len() as int) =~= all);
        }
        Ok(())
    }
}

} // verus!
