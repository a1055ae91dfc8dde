use vstd::prelude::*;
use vstd::arithmetic::div_mod::{lemma_fundamental_div_mod, lemma_fundamental_div_mod_converse};
use vstd::arithmetic::mul::lemma_mul_inequality;
use vstd::arithmetic::power2::{lemma2_to64, lemma2_to64_rest, lemma_pow2_unfold, pow2};

verus! {

/// Data version from which a packed field never straddles two words.
pub const PADDED_PACKING_VERSION: i32 = 2529;

/// Number of cells in a 16x16x16 section.
pub const SECTION_CELLS: usize = 4096;

/// Number of columns in a chunk.
pub const CHUNK_COLUMNS: usize = 256;

/// Bits per entry of a packed height map.
pub const HEIGHT_BITS: u64 = 9;

/// The low `b` bits set.
pub open spec fn mask(b: u64) -> u64 {
    ((1u64 << b) - 1) as u64
}

/// `v` is held in its low `b` bits.
pub open spec fn fits(v: u64, b: u64) -> bool {
    v >> b == 0
}

/// The word at index `j`; words past the end read as zero.
pub open spec fn word_at(words: Seq<u64>, j: int) -> u64 {
    if 0 <= j < words.len() {
        words[j]
    } else {
        0
    }
}

/// The `b`-bit field starting at bit `s` of `w`.
pub open spec fn field_of(w: u64, s: u64, b: u64) -> u64 {
    (w >> s) & mask(b)
}

/// How many `b`-bit fields one word holds when no field may straddle words.
pub open spec fn per_word(b: u64) -> int {
    64int / (b as int)
}

/// Field `i` when each word holds whole fields only, lowest bits first.
pub open spec fn padded_field(words: Seq<u64>, b: u64, i: int) -> u64 {
    field_of(word_at(words, i / per_word(b)), ((i % per_word(b)) * b) as u64, b)
}

/// Field `i` when fields are laid end to end and may run on into the next word.
pub open spec fn compact_field(words: Seq<u64>, b: u64, i: int) -> u64 {
    let p = i * b;
    let j = p / 64;
    let off = (p % 64) as u64;
    if off + b <= 64 {
        field_of(word_at(words, j), off, b)
    } else {
        ((word_at(words, j) >> off) | (word_at(words, j + 1) << ((64 - off) as u64))) & mask(b)
    }
}

/// Field `i` under the convention that a data version selects.
pub open spec fn versioned_field(words: Seq<u64>, b: u64, i: int, data_version: i32) -> u64 {
    if data_version >= PADDED_PACKING_VERSION {
        padded_field(words, b, i)
    } else {
        compact_field(words, b, i)
    }
}

/// The first `n` fields under the convention that a data version selects.
pub open spec fn unpacked(words: Seq<u64>, b: u64, n: nat, data_version: i32) -> Seq<u64> {
    Seq::new(n, |i: int| versioned_field(words, b, i, data_version))
}

proof fn lemma_mask_small(x: u64, b: u64)
    by (bit_vector)
    requires
        1 <= b <= 16,
    ensures
        x & mask(b) <= 0xffff,
{
}

proof fn lemma_and_mask_le(x: u64, b: u64)
    by (bit_vector)
    ensures
        x & mask(b) <= mask(b),
{
}

proof fn lemma_field_le_mask(words: Seq<u64>, b: u64, i: int, data_version: i32)
    ensures
        versioned_field(words, b, i, data_version) <= mask(b),
{
    let p = i * b;
    let j = p / 64;
    let off = (p % 64) as u64;
    lemma_and_mask_le(word_at(words, i / per_word(b)) >> ((i % per_word(b)) * b) as u64, b);
    lemma_and_mask_le(word_at(words, j) >> off, b);
    lemma_and_mask_le((word_at(words, j) >> off) | (word_at(words, j + 1) << ((64 - off) as u64)), b);
}

proof fn lemma_zero_field(s: u64, b: u64)
    by (bit_vector)
    requires
        1 <= b <= 16,
        s < 64,
    ensures
        field_of(0, s, b) == 0,
{
}

proof fn lemma_or_keeps_other(w: u64, v: u64, s: u64, t: u64, b: u64)
    by (bit_vector)
    requires
        1 <= b <= 16,
        s + b <= 64,
        t + b <= 64,
        t + b <= s || s + b <= t,
        v >> b == 0,
    ensures
        field_of(w | (v << s), t, b) == field_of(w, t, b),
{
}

proof fn lemma_or_sets(w: u64, v: u64, s: u64, b: u64)
    by (bit_vector)
    requires
        1 <= b <= 16,
        s + b <= 64,
        v >> b == 0,
        field_of(w, s, b) == 0,
    ensures
        field_of(w | (v << s), s, b) == v,
{
}

proof fn lemma_slot_bounds(s: int, b: int)
    by (nonlinear_arith)
    requires
        1 <= b <= 16,
        0 <= s < 64int / b,
    ensures
        s * b + b <= 64,
        0 <= s * b,
{
}

/// The first width from `b` on, up to 64, whose values reach `len`.
pub open spec fn bits_from(b: nat, len: nat) -> nat
    decreases 64 - b,
{
    if b >= 64 || pow2(b) >= len {
        b
    } else {
        bits_from(b + 1, len)
    }
}

/// Bits per packed index for a palette of `len` entries.
pub open spec fn block_bits(len: nat) -> nat {
    bits_from(4, len)
}

/// Smallest number of bits, never below four, whose values can index a palette of
/// `palette_len` entries.
pub fn bits_per_block(palette_len: usize) -> (r: usize)
    ensures
        r == block_bits(palette_len as nat),
        4 <= r <= 64,
        pow2(r as nat) >= palette_len,
        r == 4 || pow2((r - 1) as nat) < palette_len,
{
    let mut b: usize = 4;
    let mut p: u128 = 16;
    proof {
        lemma2_to64();
        lemma2_to64_rest();
    }
    while b < 64 && p < palette_len as u128
        invariant
            4 <= b <= 64,
            p == pow2(b as nat),
            b == 4 || pow2((b - 1) as nat) < palette_len,
            bits_from(b as nat, palette_len as nat) == block_bits(palette_len as nat),
            pow2(64) == 0x1_0000_0000_0000_0000,
        decreases 64 - b,
    {
        proof {
            lemma_pow2_unfold((b + 1) as nat);
        }
        p = p * 2;
        b = b + 1;
    }
    b
}

proof fn lemma_per_bounds(b: u64)
    requires
        1 <= b <= 16,
    ensures
        4 <= per_word(b) <= 64,
        per_word(b) * b <= 64,
{
    assert(4 <= 64int / (b as int) <= 64 && (64int / (b as int)) * b <= 64) by (nonlinear_arith)
        requires
            1 <= b <= 16,
    ;
}

proof fn lemma_slot_order(t: int, s: int, b: int)
    by (nonlinear_arith)
    requires
        1 <= b,
        0 <= t < s,
    ensures
        t * b + b <= s * b,
{
}

proof fn lemma_div_below(k: int, per: int, count: int)
    requires
        per > 0,
        0 <= k < count * per,
    ensures
        0 <= k / per < count,
{
    lemma_fundamental_div_mod(k, per);
    if k / per >= count {
        lemma_mul_inequality(count, k / per, per);
        assert(per * (k / per) == (k / per) * per) by (nonlinear_arith);
    }
    assert(k / per >= 0) by (nonlinear_arith)
        requires
            per > 0,
            k >= 0,
    ;
}

/// Every `b`-bit field of every slot of the word is zero.
proof fn lemma_empty_word(b: u64, per: int)
    requires
        1 <= b <= 16,
        per == per_word(b),
    ensures
        forall|t: int| 0 <= t < per ==> #[trigger] field_of(0, (t * b) as u64, b) == 0,
{
    assert forall|t: int| 0 <= t < per implies #[trigger] field_of(0, (t * b) as u64, b) == 0 by {
        lemma_slot_bounds(t, b as int);
        lemma_zero_field((t * b) as u64, b);
    }
}

/// The low `b` bits set, computed.
fn make_mask(b: u64) -> (m: u64)
    requires
        1 <= b <= 16,
    ensures
        m == mask(b),
        m <= 0xffff,
{
    assert(1 <= b <= 16 ==> (1u64 << b) >= 2 && ((1u64 << b) - 1) as u64 <= 0xffff) by (bit_vector);
    (1u64 << b) - 1
}

fn word_at_exec(words: &Vec<u64>, j: usize) -> (r: u64)
    ensures
        r == word_at(words@, j as int),
{
    if j < words.len() {
        words[j]
    } else {
        0
    }
}

/// A sequence of 64-bit words holding fixed-width unsigned fields.
pub struct PackedBits {
    pub words: Vec<u64>,
}

impl View for PackedBits {
    type V = Seq<u64>;

    open spec fn view(&self) -> Seq<u64> {
        self.words@
    }
}

impl PackedBits {
    pub fn new(words: Vec<u64>) -> (r: PackedBits)
        ensures
            r@ == words@,
    {
        PackedBits { words }
    }

    /// The first `n` fields of `b` bits, under the convention that `data_version` selects.
    pub fn unpack(&self, b: u64, n: usize, data_version: i32) -> (r: Vec<u16>)
        requires
            1 <= b <= 16,
            n <= usize::MAX / 16,
        ensures
            r@.len() == n,
            forall|i: int| 0 <= i < n ==> r@[i] as u64 == #[trigger] versioned_field(self@, b, i, data_version),
    {
        let m = make_mask(b);
        let per: usize = (64 / b) as usize;
        proof {
            lemma_per_bounds(b);
        }
        let mut out: Vec<u16> = Vec::new();
        let mut i: usize = 0;
        while i < n
            invariant
                1 <= b <= 16,
                m == mask(b),
                per == per_word(b),
                4 <= per <= 64,
                n <= usize::MAX / 16,
                i <= n,
                out@.len() == i,
                forall|k: int| 0 <= k < i ==> out@[k] as u64 == #[trigger] versioned_field(self@, b, k, data_version),
            decreases n - i,
        {
            let raw: u64;
            if data_version >= PADDED_PACKING_VERSION {
                proof {
                    lemma_slot_bounds((i % per) as int, b as int);
                }
                let s: u64 = ((i % per) as u64) * b;
                raw = word_at_exec(&self.words, i / per) >> s;
            } else {
                assert(i * b <= usize::MAX) by (nonlinear_arith)
                    requires
                        i < n,
                        n <= usize::MAX / 16,
                        b <= 16,
                ;
                let p: usize = i * (b as usize);
                let j: usize = p / 64;
                let off: u64 = (p % 64) as u64;
                if off + b <= 64 {
                    raw = word_at_exec(&self.words, j) >> off;
                } else {
                    raw = (word_at_exec(&self.words, j) >> off) | (word_at_exec(&self.words, j + 1) << (64 - off));
                }
            }
            let v: u64 = raw & m;
            assert(v == versioned_field(self@, b, i as int, data_version));
            proof {
                lemma_mask_small(raw, b);
            }
            out.push(v as u16);
            i = i + 1;
        }
        out
    }

    /// Packs `values` in `b`-bit fields, as many whole fields to a word as fit,
    /// lowest bits first.
    pub fn pack_padded(values: &Vec<u16>, b: u64) -> (r: PackedBits)
        requires
            1 <= b <= 16,
            forall|i: int| 0 <= i < values@.len() ==> fits(#[trigger] values@[i] as u64, b),
        ensures
            forall|i: int| 0 <= i < values@.len() ==> #[trigger] padded_field(r@, b, i) == values@[i] as u64,
    {
        let n = values.len();
        let per: usize = (64 / b) as usize;
        proof {
            lemma_per_bounds(b);
        }
        let mut words: Vec<u64> = Vec::new();
        let mut i: usize = 0;
        assert(0int * (per as int) == 0) by (nonlinear_arith);
        while i < n
            invariant
                1 <= b <= 16,
                per == per_word(b),
                4 <= per <= 64,
                n == values@.len(),
                forall|k: int| 0 <= k < values@.len() ==> fits(#[trigger] values@[k] as u64, b),
                i <= n,
                i == n || i == words@.len() * per,
                i == words@.len() * per || words@.len() * per >= n,
                forall|j: int, t: int| 0 <= j < words@.len() && 0 <= t < per && j * per + t < n
                    ==> #[trigger] field_of(words@[j], (t * b) as u64, b) == values@[j * per + t] as u64,
            decreases n - i,
        {
            let mut w: u64 = 0;
            let mut s: usize = 0;
            proof {
                lemma_empty_word(b, per as int);
            }
            while s < per && i + s < n
                invariant
                    1 <= b <= 16,
                    per == per_word(b),
                    4 <= per <= 64,
                    n == values@.len(),
                    forall|k: int| 0 <= k < values@.len() ==> fits(#[trigger] values@[k] as u64, b),
                    i < n,
                    s <= per,
                    i + s <= n,
                    forall|t: int| 0 <= t < s ==> #[trigger] field_of(w, (t * b) as u64, b) == values@[i + t] as u64,
                    forall|t: int| s <= t < per ==> #[trigger] field_of(w, (t * b) as u64, b) == 0,
                decreases per - s,
            {
                let v: u64 = values[i + s] as u64;
                proof {
                    lemma_slot_bounds(s as int, b as int);
                }
                let sh: u64 = (s as u64) * b;
                proof {
                    assert(fits(values@[i + s] as u64, b));
                    assert forall|t: int| 0 <= t < per && t != s implies
                        #[trigger] field_of(w | (v << sh), (t * b) as u64, b) == field_of(w, (t * b) as u64, b) by {
                        lemma_slot_bounds(t, b as int);
                        if t < s {
                            lemma_slot_order(t, s as int, b as int);
                        } else {
                            lemma_slot_order(s as int, t, b as int);
                        }
                        lemma_or_keeps_other(w, v, sh, (t * b) as u64, b);
                    }
                    lemma_or_sets(w, v, sh, b);
                }
                w = w | (v << sh);
                s = s + 1;
            }
            let ghost old_words = words@;
            words.push(w);
            proof {
                let jw = old_words.len() as int;
                assert forall|j: int, t: int| 0 <= j < words@.len() && 0 <= t < per && j * per + t < n
                    implies #[trigger] field_of(words@[j], (t * b) as u64, b) == values@[j * per + t] as u64 by {
                    if j == jw {
                        if t >= s {
                            assert(i + s == n);
                            assert(i == jw * per);
                            assert(j * per + t >= n);
                        }
                    }
                }
            }
            proof {
                let jw = old_words.len() as int;
                assert((jw + 1) * per == jw * per + per) by (nonlinear_arith);
            }
            if s == per {
                i = i + per;
            } else {
                i = n;
            }
        }
        proof {
            assert forall|k: int| 0 <= k < values@.len() implies #[trigger] padded_field(words@, b, k) == values@[k] as u64 by {
                lemma_div_below(k, per as int, words@.len() as int);
                lemma_fundamental_div_mod(k, per as int);
                assert(k == (k / per as int) * per + k % per as int) by (nonlinear_arith)
                    requires
                        k == per * (k / per as int) + k % per as int,
                ;
            }
        }
        PackedBits { words }
    }
}

/// Unpacking what `PackedBits::pack_padded` made from some values, under a data version
/// that reads whole fields only, gives those values back.
pub proof fn lemma_padded_round_trip(values: Seq<u16>, words: Seq<u64>, b: u64, data_version: i32)
    requires
        1 <= b <= 16,
        data_version >= PADDED_PACKING_VERSION,
        forall|i: int| 0 <= i < values.len() ==> #[trigger] padded_field(words, b, i) == values[i] as u64,
    ensures
        unpacked(words, b, values.len(), data_version) =~= Seq::new(values.len(), |i: int| values[i] as u64),
{
}

impl PackedBits {
    /// The palette indices of the 4096 cells of a section, each `b` bits wide.
    pub fn unpack_blockstates(&self, b: u64, data_version: i32) -> (r: Vec<u16>)
        requires
            1 <= b <= 16,
        ensures
            r@.len() == SECTION_CELLS,
            forall|i: int| 0 <= i < SECTION_CELLS ==> r@[i] as u64 == #[trigger] versioned_field(self@, b, i, data_version),
    {
        self.unpack(b, SECTION_CELLS, data_version)
    }

    /// The 256 column heights of a height map, counted up from `y_min`.
    pub fn expand_heightmap(&self, y_min: isize, data_version: i32) -> (r: Vec<i16>)
        requires
            -0x8000 <= y_min <= 0x7fff - 511,
        ensures
            r@.len() == CHUNK_COLUMNS,
            forall|i: int| 0 <= i < CHUNK_COLUMNS ==> r@[i] == versioned_field(self@, HEIGHT_BITS, i, data_version) + y_min,
    {
        let raw = self.unpack(HEIGHT_BITS, CHUNK_COLUMNS, data_version);
        let mut out: Vec<i16> = Vec::new();
        let mut i: usize = 0;
        while i < CHUNK_COLUMNS
            invariant
                -0x8000 <= y_min <= 0x7fff - 511,
                raw@.len() == CHUNK_COLUMNS,
                forall|k: int| 0 <= k < CHUNK_COLUMNS ==> raw@[k] as u64 == #[trigger] versioned_field(self@, HEIGHT_BITS, k, data_version),
                i <= CHUNK_COLUMNS,
                out@.len() == i,
                forall|k: int| 0 <= k < i ==> out@[k] == versioned_field(self@, HEIGHT_BITS, k, data_version) + y_min,
            decreases CHUNK_COLUMNS - i,
        {
            let v = raw[i];
            proof {
                lemma_field_le_mask(self@, HEIGHT_BITS, i as int, data_version);
                assert(mask(9) == 511) by (bit_vector);
            }
            out.push((v as isize + y_min) as i16);
            i = i + 1;
        }
        out
    }
}

proof fn lemma_high_zero_field(w: u64, off: u64, b: u64)
    by (bit_vector)
    requires
        off < 64,
        w >> off == 0,
    ensures
        field_of(w, off, b) == 0,
{
}

proof fn lemma_shift_zero_is_zero(w: u64)
    by (bit_vector)
    requires
        w >> 0 == 0,
    ensures
        w == 0,
{
}

proof fn lemma_or_high_zero(w: u64, v: u64, off: u64, b: u64)
    by (bit_vector)
    requires
        1 <= b <= 16,
        off + b < 64,
        w >> off == 0,
        v >> b == 0,
    ensures
        (w | (v << off)) >> ((off + b) as u64) == 0,
{
}

proof fn lemma_or_keeps_lower(w: u64, v: u64, s: u64, t: u64, b: u64)
    by (bit_vector)
    requires
        1 <= b <= 16,
        s < 64,
        t + b <= s,
    ensures
        field_of(w | (v << s), t, b) == field_of(w, t, b),
{
}

proof fn lemma_straddle_keep(a: u64, w: u64, v: u64, s: u64, off: u64, b: u64)
    by (bit_vector)
    requires
        1 <= b <= 16,
        s < 64,
        s + b > 64,
        s + b - 64 <= off,
        off < 64,
        v >> b == 0,
    ensures
        ((a >> s) | ((w | (v << off)) << ((64 - s) as u64))) & mask(b) == ((a >> s) | (w << ((64 - s) as u64))) & mask(b),
{
}

proof fn lemma_split(w: u64, v: u64, off: u64, b: u64)
    by (bit_vector)
    requires
        1 <= b <= 16,
        off < 64,
        off + b > 64,
        w >> off == 0,
        v >> b == 0,
    ensures
        (((w | (v << off)) >> off) | ((v >> ((64 - off) as u64)) << ((64 - off) as u64))) & mask(b) == v,
        (v >> ((64 - off) as u64)) >> ((off + b - 64) as u64) == 0,
{
}

/// Writing the field that starts at bit `off` of the last word keeps every
/// earlier field.
proof fn lemma_compact_keep(words: Seq<u64>, w: u64, v: u64, off: u64, b: u64, view: Seq<u64>, i: int, k: int)
    requires
        1 <= b <= 16,
        off < 64,
        fits(v, b),
        words.len() * 64 + off == i * b,
        0 <= k < i,
        view.len() >= words.len() + 1,
        forall|j: int| 0 <= j < words.len() ==> view[j] == words[j],
        view[words.len() as int] == w | (v << off),
    ensures
        compact_field(view, b, k) == compact_field(words.push(w), b, k),
{
    let l = words.len() as int;
    let p = k * b;
    let j = p / 64;
    let o = p % 64;
    assert(p + b <= i * b && p >= 0) by (nonlinear_arith)
        requires
            p == k * b,
            0 <= k < i,
            b >= 1,
    ;
    lemma_fundamental_div_mod(p, 64);
    let old_view = words.push(w);
    if j < l - 1 {
        assert(word_at(view, j) == word_at(old_view, j));
        assert(word_at(view, j + 1) == word_at(old_view, j + 1));
    } else if j == l - 1 {
        assert(word_at(view, j) == word_at(old_view, j));
        if o + b > 64 {
            lemma_straddle_keep(words[j], w, v, o as u64, off, b);
        }
    } else {
        assert(j == l);
        assert(o + b <= off);
        lemma_or_keeps_lower(w, v, off, o as u64, b);
    }
}

/// The field written at bit `off` of the last word reads back as the value.
proof fn lemma_compact_new(words: Seq<u64>, w: u64, v: u64, off: u64, b: u64, view: Seq<u64>, i: int)
    requires
        1 <= b <= 16,
        off < 64,
        fits(v, b),
        w >> off == 0,
        words.len() * 64 + off == i * b,
        view.len() >= words.len() + 1,
        view[words.len() as int] == w | (v << off),
        off + b <= 64 || (view.len() >= words.len() + 2 && view[words.len() + 1int] == v >> ((64 - off) as u64)),
    ensures
        compact_field(view, b, i) == v,
{
    lemma_fundamental_div_mod_converse(i * b, 64, words.len() as int, off as int);
    if off + b <= 64 {
        lemma_high_zero_field(w, off, b);
        lemma_or_sets(w, v, off, b);
    } else {
        lemma_split(w, v, off, b);
    }
}

proof fn lemma_compact_push_zero(words: Seq<u64>, b: u64, k: int)
    ensures
        compact_field(words.push(0), b, k) == compact_field(words, b, k),
{
    let j = (k * b) / 64;
    assert(word_at(words.push(0), j) == word_at(words, j));
    assert(word_at(words.push(0), j + 1) == word_at(words, j + 1));
}

impl PackedBits {
    /// Packs `values` in `b`-bit fields laid end to end, lowest bits first, a field
    /// running on into the next word where it does not fit.
    pub fn pack_compact(values: &Vec<u16>, b: u64) -> (r: PackedBits)
        requires
            1 <= b <= 16,
            forall|i: int| 0 <= i < values@.len() ==> fits(#[trigger] values@[i] as u64, b),
        ensures
            forall|i: int| 0 <= i < values@.len() ==> #[trigger] compact_field(r@, b, i) == values@[i] as u64,
    {
        let n = values.len();
        let mut words: Vec<u64> = Vec::new();
        let mut w: u64 = 0;
        let mut off: u64 = 0;
        let mut i: usize = 0;
        assert(0u64 >> 0u64 == 0) by (bit_vector);
        while i < n
            invariant
                1 <= b <= 16,
                n == values@.len(),
                forall|k: int| 0 <= k < values@.len() ==> fits(#[trigger] values@[k] as u64, b),
                i <= n,
                off < 64,
                w >> off == 0,
                words@.len() * 64 + off == i * b,
                forall|k: int| 0 <= k < i ==> #[trigger] compact_field(words@.push(w), b, k) == values@[k] as u64,
            decreases n - i,
        {
            let v: u64 = values[i] as u64;
            assert(fits(values@[i as int] as u64, b));
            let ghost old_words = words@;
            let ghost old_w = w;
            let ghost old_off = off;
            assert((i + 1) * b == i * b + b) by (nonlinear_arith);
            if off + b < 64 {
                w = w | (v << off);
                off = off + b;
                proof {
                    lemma_or_high_zero(old_w, v, old_off, b);
                }
            } else if off + b == 64 {
                let full = w | (v << off);
                words.push(full);
                w = 0;
                off = 0;
                assert(0u64 >> 0u64 == 0) by (bit_vector);
            } else {
                let full = w | (v << off);
                words.push(full);
                proof {
                    lemma_split(old_w, v, old_off, b);
                }
                w = v >> (64 - off);
                off = off + b - 64;
            }
            proof {
                let view = words@.push(w);
                assert forall|k: int| 0 <= k < i + 1 implies #[trigger] compact_field(words@.push(w), b, k) == values@[k] as u64 by {
                    if k < i {
                        lemma_compact_keep(old_words, old_w, v, old_off, b, view, i as int, k);
                    } else {
                        lemma_compact_new(old_words, old_w, v, old_off, b, view, i as int);
                    }
                }
            }
            i = i + 1;
        }
        if off > 0 {
            words.push(w);
        } else {
            proof {
                lemma_shift_zero_is_zero(w);
                assert forall|k: int| 0 <= k < n implies #[trigger] compact_field(words@, b, k) == values@[k] as u64 by {
                    lemma_compact_push_zero(words@, b, k);
                }
            }
        }
        PackedBits { words }
    }
}

/// Unpacking what `PackedBits::pack_compact` made from some values, under a data
/// version that lets fields straddle words, gives those values back.
pub proof fn lemma_compact_round_trip(values: Seq<u16>, words: Seq<u64>, b: u64, data_version: i32)
    requires
        1 <= b <= 16,
        data_version < PADDED_PACKING_VERSION,
        forall|i: int| 0 <= i < values.len() ==> #[trigger] compact_field(words, b, i) == values[i] as u64,
    ensures
        unpacked(words, b, values.len(), data_version) =~= Seq::new(values.len(), |i: int| values[i] as u64),
{
}

} // verus!
