//! Canonical Huffman code books built from `(symbol, code length)` rows,
//! and their bit-at-a-time decoder.
//!
//! Codes are assigned in the canonical order: rows sorted by code length,
//! rows of equal length kept in their given order; the first code is 0,
//! each next code is the previous one plus one, shifted left by the
//! growth of the code length.

use crate::bits::{
    bits_of, bits_value, lemma_bits_value_bound, lemma_bits_value_extend, lemma_two_pow_32, lemma_two_pow_mono,
    two_pow, BitReader,
};
use crate::error::Error;
use crate::header::fld;
use crate::side_info::{lemma_fld_prefix, lemma_read_fixed_bound};
use crate::subframe::read_field;
use crate::tables::{BITALLOC_12_OFFSET, BITALLOC_OFFSETS};
use vstd::arithmetic::power2::{
    lemma2_to64, lemma_pow2_adds, lemma_pow2_pos, lemma_pow2_strictly_increases, pow2,
};
use vstd::arithmetic::div_mod::{
    lemma_fundamental_div_mod, lemma_fundamental_div_mod_converse, lemma_mod_pos_bound,
    lemma_mul_mod_noop_left, lemma_small_mod,
};
use vstd::prelude::*;

verus! {

/// One code of a built code book.
#[derive(Debug, Clone, Copy, PartialEq, Eq)]
pub struct VlcEntry {
    /// The code, in the low `length` bits.
    pub code: u32,
    /// Code length in bits.
    pub length: u8,
    /// Decoded symbol (before the book's offset).
    pub symbol: i16,
}

/// A built canonical Huffman code book.
#[derive(Debug, Clone)]
pub struct Vlc {
    /// The codes, in canonical order.
    pub entries: Vec<VlcEntry>,
    /// Longest code length in bits.
    pub max_len: u8,
    /// Added to every decoded symbol.
    pub offset: i16,
}

// ---------------------------------------------------------------------
// Canonical order and code assignment
// ---------------------------------------------------------------------

/// The rows among the first `n` whose length is `l`, in order.
pub open spec fn with_len(rows: Seq<(i16, u8)>, l: nat, n: nat) -> Seq<(i16, u8)>
    decreases n,
{
    if n == 0 {
        Seq::empty()
    } else if rows[n - 1].1 == l {
        with_len(rows, l, (n - 1) as nat).push(rows[n - 1])
    } else {
        with_len(rows, l, (n - 1) as nat)
    }
}

/// The rows whose length is below `l`, by length, stable within a length.
pub open spec fn by_len_below(rows: Seq<(i16, u8)>, l: nat) -> Seq<(i16, u8)>
    decreases l,
{
    if l == 0 {
        Seq::empty()
    } else {
        by_len_below(rows, (l - 1) as nat) + with_len(rows, (l - 1) as nat, rows.len())
    }
}

/// All rows in canonical order: stably sorted by code length.
pub open spec fn canonical_order(rows: Seq<(i16, u8)>) -> Seq<(i16, u8)> {
    by_len_below(rows, 256)
}

/// The next code after shifting for a code of length `len`, when the
/// previous length was `prev`.
pub open spec fn shifted(next: nat, prev: nat, len: nat) -> nat {
    if len > prev {
        next * pow2((len - prev) as nat)
    } else {
        next
    }
}

/// `(next code, current length)` after assigning codes to the first `k`
/// rows of `s`.
pub open spec fn canon_state(s: Seq<(i16, u8)>, k: nat) -> (nat, nat)
    decreases k,
{
    if k == 0 {
        (0, 0)
    } else {
        let st = canon_state(s, (k - 1) as nat);
        let len = s[k - 1].1 as nat;
        (
            shifted(st.0, st.1, len) + 1,
            if len > st.1 {
                len
            } else {
                st.1
            },
        )
    }
}

/// The code assigned to row `k` of `s`.
pub open spec fn canon_code(s: Seq<(i16, u8)>, k: nat) -> nat {
    shifted(canon_state(s, k).0, canon_state(s, k).1, s[k as int].1 as nat)
}

/// The entries of the book built from `s`, taken in the given order.
pub open spec fn entries_of(s: Seq<(i16, u8)>) -> Seq<VlcEntry> {
    Seq::new(
        s.len(),
        |k: int|
            VlcEntry {
                code: (canon_code(s, k as nat) % 0x1_0000_0000) as u32,
                length: s[k].1,
                symbol: s[k].0,
            },
    )
}

/// Whether `m` is the longest length among `rows` (0 when there are
/// none).
pub open spec fn is_longest_len(rows: Seq<(i16, u8)>, m: u8) -> bool {
    &&& forall|j: int| 0 <= j < rows.len() ==> #[trigger] rows[j].1 <= m
    &&& rows.len() > 0 ==> exists|j: int| 0 <= j < rows.len() && #[trigger] rows[j].1 == m
    &&& rows.len() == 0 ==> m == 0
}

/// Whether step `k` of building from the rows in canonical order `s`
/// stays within the 32-bit code register: the code length grows by fewer
/// than 32 bits, and the code given to row `k`, taken modulo 2^32 as the
/// register holds it, is not the largest 32-bit value (the next code is
/// one more).
pub open spec fn build_step_fits(s: Seq<(i16, u8)>, k: nat) -> bool {
    let st = canon_state(s, k);
    let len = s[k as int].1 as nat;
    &&& (len > st.1 ==> len - st.1 < 32)
    &&& canon_code(s, k) % 0x1_0000_0000 != 0xffff_ffff
}

/// Whether every step of building the book from `rows` stays within the
/// 32-bit code register.
pub open spec fn builds_in_32_bits(rows: Seq<(i16, u8)>) -> bool {
    forall|k: nat| k < rows.len() ==> #[trigger] build_step_fits(canonical_order(rows), k)
}

/// Whether every code length is small enough for `rows.len()` codes of
/// that length to fit in 32 bits.
pub open spec fn rows_fit(rows: Seq<(i16, u8)>) -> bool {
    forall|i: int|
        #![trigger rows[i]]
        0 <= i < rows.len() ==> rows.len() * pow2(rows[i].1 as nat) < 0x1_0000_0000
}

/// Whether `v` is the book built from `rows` with `offset`.
pub open spec fn is_built_from(v: Vlc, rows: Seq<(i16, u8)>, offset: i16) -> bool {
    &&& v.entries@ == entries_of(canonical_order(rows))
    &&& is_longest_len(rows, v.max_len)
    &&& v.offset == offset
}

proof fn lemma_canon_state_push(s: Seq<(i16, u8)>, x: (i16, u8), k: nat)
    requires
        k <= s.len(),
    ensures
        canon_state(s.push(x), k) == canon_state(s, k),
    decreases k,
{
    if k > 0 {
        lemma_canon_state_push(s, x, (k - 1) as nat);
        assert(s.push(x)[k - 1] == s[k - 1]);
    }
}

proof fn lemma_with_len_count(rows: Seq<(i16, u8)>, l: nat, i: nat, n: nat)
    requires
        i <= n <= rows.len(),
    ensures
        with_len(rows, l, i).len() <= with_len(rows, l, n).len(),
        i < n && rows[i as int].1 == l ==> with_len(rows, l, i).len() + 1 <= with_len(rows, l, n).len(),
    decreases n,
{
    if i < n {
        lemma_with_len_count(rows, l, i, (n - 1) as nat);
        if i + 1 <= n - 1 {
            lemma_with_len_count(rows, l, (i + 1) as nat, (n - 1) as nat);
        }
    }
}

/// Number of the first `n` rows whose length is below `l`.
spec fn cnt_below(rows: Seq<(i16, u8)>, l: nat, n: nat) -> nat
    decreases n,
{
    if n == 0 {
        0
    } else {
        cnt_below(rows, l, (n - 1) as nat) + if (rows[n - 1].1 as nat) < l {
            1nat
        } else {
            0nat
        }
    }
}

proof fn lemma_cnt_below_step(rows: Seq<(i16, u8)>, l: nat, n: nat)
    requires
        n <= rows.len(),
    ensures
        cnt_below(rows, l + 1, n) == cnt_below(rows, l, n) + with_len(rows, l, n).len(),
        cnt_below(rows, l, n) <= n,
    decreases n,
{
    if n > 0 {
        lemma_cnt_below_step(rows, l, (n - 1) as nat);
    }
}

proof fn lemma_cnt_below_zero(rows: Seq<(i16, u8)>, n: nat)
    ensures
        cnt_below(rows, 0, n) == 0,
    decreases n,
{
    if n > 0 {
        lemma_cnt_below_zero(rows, (n - 1) as nat);
    }
}

proof fn lemma_cnt_below_all(rows: Seq<(i16, u8)>, n: nat)
    requires
        n <= rows.len(),
    ensures
        cnt_below(rows, 256, n) == n,
    decreases n,
{
    if n > 0 {
        lemma_cnt_below_all(rows, (n - 1) as nat);
    }
}

proof fn lemma_by_len_below_len(rows: Seq<(i16, u8)>, l: nat)
    ensures
        by_len_below(rows, l).len() == cnt_below(rows, l, rows.len()),
        cnt_below(rows, l, rows.len()) <= rows.len(),
    decreases l,
{
    lemma_cnt_below_step(rows, l, rows.len());
    lemma_cnt_below_zero(rows, rows.len());
    if l > 0 {
        lemma_by_len_below_len(rows, (l - 1) as nat);
        lemma_cnt_below_step(rows, (l - 1) as nat, rows.len());
    }
}

/// Whether row `j` is processed while working on length `l`, row `i`.
spec fn done(rows: Seq<(i16, u8)>, l: nat, i: nat, j: int) -> bool {
    (rows[j].1 as nat) < l || (rows[j].1 as nat == l && j < i)
}

/// The processed prefix while working on length `l`, row `i`.
spec fn processed(rows: Seq<(i16, u8)>, l: nat, i: nat) -> Seq<(i16, u8)> {
    by_len_below(rows, l) + with_len(rows, l, i)
}

proof fn lemma_with_len_prefix(rows: Seq<(i16, u8)>, l: nat, i: nat, n: nat)
    requires
        i <= n <= rows.len(),
    ensures
        with_len(rows, l, i).len() <= with_len(rows, l, n).len(),
        with_len(rows, l, i) =~= with_len(rows, l, n).subrange(0, with_len(rows, l, i).len() as int),
    decreases n,
{
    if i < n {
        lemma_with_len_prefix(rows, l, i, (n - 1) as nat);
    }
}

proof fn lemma_by_len_below_prefix(rows: Seq<(i16, u8)>, l: nat, m: nat)
    requires
        l <= m,
    ensures
        by_len_below(rows, l).len() <= by_len_below(rows, m).len(),
        by_len_below(rows, l) =~= by_len_below(rows, m).subrange(0, by_len_below(rows, l).len() as int),
    decreases m,
{
    if l < m {
        lemma_by_len_below_prefix(rows, l, (m - 1) as nat);
    }
}

proof fn lemma_canonical_len(rows: Seq<(i16, u8)>)
    ensures
        canonical_order(rows).len() == rows.len(),
{
    lemma_by_len_below_len(rows, 256);
    lemma_cnt_below_all(rows, rows.len());
}

/// The rows taken so far, while working on length `l`, row `i`, are the
/// start of the canonical order.
proof fn lemma_processed_prefix(rows: Seq<(i16, u8)>, l: nat, i: nat)
    requires
        l < 256,
        i <= rows.len(),
    ensures
        processed(rows, l, i).len() <= canonical_order(rows).len(),
        forall|j: int|
            0 <= j < processed(rows, l, i).len() ==> #[trigger] processed(rows, l, i)[j]
                == canonical_order(rows)[j],
{
    let b = by_len_below(rows, l);
    let wi = with_len(rows, l, i);
    let wn = with_len(rows, l, rows.len());
    let co = canonical_order(rows);
    lemma_with_len_prefix(rows, l, i, rows.len());
    lemma_by_len_below_prefix(rows, l + 1, 256);
    assert(by_len_below(rows, l + 1) == b + wn);
    assert forall|j: int| 0 <= j < processed(rows, l, i).len() implies #[trigger] processed(
        rows,
        l,
        i,
    )[j] == co[j] by {
        assert(co[j] == by_len_below(rows, l + 1)[j]);
        if j >= b.len() {
            assert(wi[j - b.len()] == wn[j - b.len()]);
        }
    }
}

proof fn lemma_canon_state_prefix(s: Seq<(i16, u8)>, t: Seq<(i16, u8)>, k: nat)
    requires
        k <= s.len(),
        k <= t.len(),
        forall|j: int| 0 <= j < k ==> s[j] == t[j],
    ensures
        canon_state(s, k) == canon_state(t, k),
    decreases k,
{
    if k > 0 {
        lemma_canon_state_prefix(s, t, (k - 1) as nat);
        assert(s[k - 1] == t[k - 1]);
    }
}

/// A 32-bit left shift keeps the low 32 bits of the product.
proof fn lemma_u32_shl_mod(x: u32, d: u32)
    requires
        d < 32,
    ensures
        (x << d) as nat == (x as nat * pow2(d as nat)) % 0x1_0000_0000,
{
    let y: u64 = x as u64;
    lemma2_to64();
    if d < 31 {
        lemma_pow2_strictly_increases(d as nat, 31);
    }
    assert(y * pow2(d as nat) <= 0xffff_ffff * 0x8000_0000) by (nonlinear_arith)
        requires
            y <= 0xffff_ffff,
            pow2(d as nat) <= 0x8000_0000,
    ;
    vstd::bits::lemma_u64_shl_is_mul(y, d as u64);
    assert((x << d) as u64 == (y << (d as u64)) % 0x1_0000_0000) by (bit_vector)
        requires
            y == x as u64,
            d < 32,
    ;
}

/// One more than a number whose residue is below the largest residue
/// has the next residue.
proof fn lemma_mod_succ(a: nat)
    requires
        a % 0x1_0000_0000 != 0xffff_ffff,
    ensures
        (a + 1) % 0x1_0000_0000 == a % 0x1_0000_0000 + 1,
{
    let m: int = 0x1_0000_0000;
    lemma_fundamental_div_mod(a as int, m);
    lemma_mod_pos_bound(a as int, m);
    let q = a as int / m;
    let r = a as int % m;
    assert(a + 1 == q * m + (r + 1)) by (nonlinear_arith)
        requires
            a == m * q + r,
    ;
    lemma_fundamental_div_mod_converse(a + 1 as int, m, q, r + 1);
}

/// Building from rows that all fit (`rows_fit`) stays within 32 bits,
/// traced in the order in which rows are taken: every row shorter than
/// `l`, then the rows of length `l` among the first `i`. The code after
/// `k` rows is at most `k` times two to the current length.
proof fn lemma_fit_walk(rs: Seq<(i16, u8)>, l: nat, i: nat)
    requires
        rows_fit(rs),
        l <= 256,
        i <= rs.len(),
        l == 256 ==> i == 0,
    ensures
        canon_state(processed(rs, l, i), processed(rs, l, i).len()).0 <= processed(rs, l, i).len()
            * pow2(canon_state(processed(rs, l, i), processed(rs, l, i).len()).1),
        canon_state(processed(rs, l, i), processed(rs, l, i).len()).1 <= l,
        forall|k: nat|
            k < processed(rs, l, i).len() ==> #[trigger] build_step_fits(processed(rs, l, i), k),
    decreases l, i,
{
    let n = rs.len();
    if i > 0 {
        lemma_fit_walk(rs, l, (i - 1) as nat);
        let pr = processed(rs, l, (i - 1) as nat);
        let k = pr.len();
        let st = canon_state(pr, k);
        let x = rs[i - 1];
        if x.1 as nat == l {
            let npr = pr.push(x);
            assert(processed(rs, l, i) =~= npr);
            lemma_by_len_below_len(rs, l);
            lemma_with_len_count(rs, l, (i - 1) as nat, n);
            lemma_cnt_below_step(rs, l, n);
            lemma_cnt_below_step(rs, l + 1, n);
            lemma_by_len_below_len(rs, l + 1);
            assert(k + 1 <= n);
            assert(n * pow2(l) < 0x1_0000_0000);
            lemma_pow2_pos(l);
            lemma_pow2_pos(st.1);
            assert(l <= 31) by {
                if l >= 32 {
                    if l > 32 {
                        lemma_pow2_strictly_increases(32, l);
                    }
                    lemma2_to64();
                    assert(n * pow2(l) >= pow2(l)) by (nonlinear_arith)
                        requires
                            n >= 1,
                    ;
                }
            }
            let c = shifted(st.0, st.1, l);
            assert(c <= k * pow2(l)) by {
                if l > st.1 {
                    let d = (l - st.1) as nat;
                    lemma_pow2_adds(st.1, d);
                    assert(st.0 * pow2(d) <= k * pow2(st.1) * pow2(d)) by (nonlinear_arith)
                        requires
                            st.0 <= k * pow2(st.1),
                    ;
                    assert(k * pow2(st.1) * pow2(d) == k * pow2(l)) by (nonlinear_arith)
                        requires
                            pow2(st.1) * pow2(d) == pow2(l),
                    ;
                } else {
                    assert(st.1 == l);
                }
            }
            assert((k + 1) * pow2(l) <= n * pow2(l)) by (nonlinear_arith)
                requires
                    k + 1 <= n,
            ;
            assert(k * pow2(l) + pow2(l) == (k + 1) * pow2(l)) by (nonlinear_arith);
            lemma_small_mod(c, 0x1_0000_0000);
            lemma_canon_state_push(pr, x, k);
            assert(build_step_fits(npr, k));
            assert forall|j: nat| j < npr.len() implies #[trigger] build_step_fits(npr, j) by {
                if j < k {
                    lemma_canon_state_push(pr, x, j);
                    assert(npr[j as int] == pr[j as int]);
                    assert(build_step_fits(pr, j));
                }
            }
        } else {
            assert(processed(rs, l, i) =~= pr);
        }
    } else if l > 0 {
        lemma_fit_walk(rs, (l - 1) as nat, n);
        assert(processed(rs, l, 0) =~= processed(rs, (l - 1) as nat, n));
    } else {
        assert(processed(rs, 0, 0) =~= Seq::<(i16, u8)>::empty());
    }
}

/// Rows that all fit (`rows_fit`) build within the 32-bit code register.
proof fn lemma_rows_fit_builds(rs: Seq<(i16, u8)>)
    requires
        rows_fit(rs),
    ensures
        builds_in_32_bits(rs),
{
    lemma_fit_walk(rs, 256, 0);
    assert(processed(rs, 256, 0) =~= canonical_order(rs));
    lemma_canonical_len(rs);
}

impl Vlc {
    /// Build the canonical code book of `rows` (`(symbol, length)` pairs)
    /// with `offset` added to every decoded symbol.
    #[verifier::rlimit(60)]
    pub fn build(rows: &[(i16, u8)], offset: i16) -> (r: Self)
        requires
            builds_in_32_bits(rows@),
        ensures
            is_built_from(r, rows@, offset),
            r.entries@.len() == rows@.len(),
    {
        let ghost rs = rows@;
        let ghost nrows = rows@.len();
        let mut entries: Vec<VlcEntry> = Vec::new();
        let mut code: u32 = 0;
        let mut prev_len: u8 = 0;
        let mut max_len: u8 = 0;
        let mut l: u16 = 0;
        proof {
            assert(processed(rs, 0, 0) =~= Seq::<(i16, u8)>::empty());
            assert(entries@ =~= entries_of(processed(rs, 0, 0)));
        }
        while l < 256
            invariant
                l <= 256,
                rs == rows@,
                nrows == rs.len(),
                builds_in_32_bits(rs),
                entries@ =~= entries_of(processed(rs, l as nat, 0)),
                canon_state(processed(rs, l as nat, 0), processed(rs, l as nat, 0).len()).0
                    % 0x1_0000_0000 == code as nat,
                canon_state(processed(rs, l as nat, 0), processed(rs, l as nat, 0).len()).1
                    == prev_len as nat,
                prev_len as nat <= l,
                max_len == prev_len,
                forall|j: int| 0 <= j < nrows && #[trigger] done(rs, l as nat, 0, j) ==> rs[j].1 <= max_len,
                max_len == 0 || exists|j: int| 0 <= j < nrows && #[trigger] done(rs, l as nat, 0, j) && rs[j].1 == max_len,
            decreases 256 - l,
        {
            let mut i: usize = 0;
            while i < rows.len()
                invariant
                    l < 256,
                    i <= nrows,
                    rs == rows@,
                    nrows == rs.len(),
                    builds_in_32_bits(rs),
                    entries@ =~= entries_of(processed(rs, l as nat, i as nat)),
                    canon_state(processed(rs, l as nat, i as nat), processed(rs, l as nat, i as nat).len()).0
                        % 0x1_0000_0000 == code as nat,
                    canon_state(processed(rs, l as nat, i as nat), processed(rs, l as nat, i as nat).len()).1
                        == prev_len as nat,
                    prev_len as nat <= l,
                    max_len == prev_len,
                    forall|j: int|
                        0 <= j < nrows && #[trigger] done(rs, l as nat, i as nat, j) ==> rs[j].1 <= max_len,
                    max_len == 0 || exists|j: int|
                        0 <= j < nrows && #[trigger] done(rs, l as nat, i as nat, j) && rs[j].1 == max_len,
                decreases nrows - i,
            {
                let (sym, len) = rows[i];
                let ghost pr = processed(rs, l as nat, i as nat);
                let ghost k = pr.len();
                if len as u16 == l {
                    let ghost npr = pr.push((sym, len));
                    let ghost co = canonical_order(rs);
                    let ghost st = canon_state(pr, k);
                    proof {
                        assert(processed(rs, l as nat, (i + 1) as nat) =~= npr);
                        lemma_processed_prefix(rs, l as nat, (i + 1) as nat);
                        lemma_canonical_len(rs);
                        assert(co[k as int] == npr[k as int]);
                        assert forall|j: int| 0 <= j < k implies co[j] == pr[j] by {
                            assert(npr[j] == pr[j]);
                            assert(npr[j] == co[j]);
                        }
                        lemma_canon_state_prefix(co, pr, k);
                        assert(build_step_fits(co, k));
                    }
                    if len > prev_len {
                        let d: u32 = (len - prev_len) as u32;
                        proof {
                            lemma_u32_shl_mod(code, d);
                            lemma_mul_mod_noop_left(
                                st.0 as int,
                                pow2(d as nat) as int,
                                0x1_0000_0000,
                            );
                        }
                        code = code << d;
                        prev_len = len;
                    }
                    proof {
                        assert(code as nat == shifted(st.0, st.1, len as nat) % 0x1_0000_0000);
                    }
                    let ghost old_entries = entries@;
                    entries.push(VlcEntry { code, length: len, symbol: sym });
                    proof {
                        lemma_mod_succ(shifted(st.0, st.1, len as nat));
                    }
                    code = code + 1;
                    if len > max_len {
                        max_len = len;
                    }
                    proof {
                        assert(canon_state(npr, k) == canon_state(pr, k)) by {
                            lemma_canon_state_push(pr, (sym, len), k);
                        }
                        assert(canon_state(npr, k + 1).0 % 0x1_0000_0000 == code as nat);
                        assert(canon_state(npr, k + 1).1 == prev_len as nat);
                        assert forall|j: int| 0 <= j < k implies #[trigger] canon_code(npr, j as nat) == canon_code(pr, j as nat) by {
                            lemma_canon_state_push(pr, (sym, len), j as nat);
                            assert(npr[j] == pr[j]);
                        }
                        assert(entries@ =~= entries_of(npr));
                        assert(done(rs, l as nat, (i + 1) as nat, i as int));
                        assert(rs[i as int].1 == max_len);
                        assert forall|j: int|
                            0 <= j < nrows && #[trigger] done(rs, l as nat, (i + 1) as nat, j) implies rs[j].1
                            <= max_len by {
                            if j != i {
                                assert(done(rs, l as nat, i as nat, j));
                            }
                        }
                    }
                } else {
                    proof {
                        assert(processed(rs, l as nat, (i + 1) as nat) =~= pr);
                        assert forall|j: int| 0 <= j < nrows implies #[trigger] done(
                            rs,
                            l as nat,
                            (i + 1) as nat,
                            j,
                        ) == done(rs, l as nat, i as nat, j) by {}
                        if max_len != 0 {
                            let w = choose|j: int|
                                0 <= j < nrows && #[trigger] done(rs, l as nat, i as nat, j) && rs[j].1
                                    == max_len;
                            assert(done(rs, l as nat, (i + 1) as nat, w));
                        }
                    }
                }
                i = i + 1;
            }
            proof {
                assert(processed(rs, (l + 1) as nat, 0) =~= processed(rs, l as nat, nrows));
                assert forall|j: int| 0 <= j < nrows implies #[trigger] done(rs, (l + 1) as nat, 0, j)
                    == done(rs, l as nat, nrows as nat, j) by {}
                if max_len != 0 {
                    let w = choose|j: int|
                        0 <= j < nrows && #[trigger] done(rs, l as nat, nrows as nat, j) && rs[j].1
                            == max_len;
                    assert(done(rs, (l + 1) as nat, 0, w));
                }
            }
            l = l + 1;
        }
        proof {
            assert(processed(rs, 256, 0) =~= canonical_order(rs));
            assert forall|j: int| 0 <= j < nrows implies #[trigger] rs[j].1 <= max_len by {
                assert(done(rs, 256, 0, j));
            }
            lemma_by_len_below_len(rs, 256);
            lemma_cnt_below_all(rs, nrows);
            if nrows > 0 && max_len == 0 {
                assert(rs[0].1 == max_len);
            }
        }
        Vlc { entries, max_len, offset }
    }
}


// ---------------------------------------------------------------------
// Decoding
// ---------------------------------------------------------------------

/// The 32-bit register after shifting in the `l` bits read from `pos`.
pub open spec fn shift_reg(bits: Seq<bool>, pos: nat, l: nat) -> nat
    decreases l,
{
    if l == 0 {
        0
    } else {
        (2 * shift_reg(bits, pos, (l - 1) as nat) + fld(bits, pos + l - 1, 1)) % 0x1_0000_0000
    }
}

/// Index of the first entry at or after `k` with length `len` and code
/// `code`.
pub open spec fn vlc_lookup(entries: Seq<VlcEntry>, len: nat, code: nat, k: nat) -> Option<nat>
    decreases entries.len() - k,
{
    if k >= entries.len() {
        None
    } else if entries[k as int].length == len && entries[k as int].code == code {
        Some(k)
    } else {
        vlc_lookup(entries, len, code, k + 1)
    }
}

/// Decoding with book `v` having read `l - 1` bits without a match:
/// `(symbol + offset, end position)`, `UnexpectedEof` when the input ends,
/// `HuffmanDecodeFailed` after `max_len` bits without a match.
pub open spec fn spec_vlc_from(v: Vlc, bits: Seq<bool>, pos: nat, l: nat) -> Result<(i32, nat), Error>
    decreases v.max_len + 1 - l,
{
    if l == 0 || l > v.max_len {
        Err(Error::HuffmanDecodeFailed { table: "VLC" })
    } else if !(pos + l <= bits.len() && pos + l <= usize::MAX) {
        Err(Error::UnexpectedEof)
    } else {
        match vlc_lookup(v.entries@, l, shift_reg(bits, pos, l), 0) {
            Some(k) => Ok(((v.entries@[k as int].symbol + v.offset) as i32, pos + l)),
            None => spec_vlc_from(v, bits, pos, l + 1),
        }
    }
}

/// Where the cursor stands when decoding with book `v` from `l` fails:
/// after every bit read before the input ended or the walk gave up.
pub open spec fn spec_vlc_stop(v: Vlc, bits: Seq<bool>, pos: nat, l: nat) -> nat
    decreases v.max_len + 1 - l,
{
    if l == 0 {
        pos
    } else if l > v.max_len {
        (pos + l - 1) as nat
    } else if !(pos + l <= bits.len() && pos + l <= usize::MAX) {
        (pos + l - 1) as nat
    } else {
        match vlc_lookup(v.entries@, l, shift_reg(bits, pos, l), 0) {
            Some(k) => pos + l,
            None => spec_vlc_stop(v, bits, pos, l + 1),
        }
    }
}

/// After at most 32 bits the register holds the field just read.
proof fn lemma_shift_reg_fld(bits: Seq<bool>, pos: nat, l: nat)
    requires
        l <= 32,
        pos + l <= bits.len(),
    ensures
        shift_reg(bits, pos, l) == fld(bits, pos as int, l as int),
    decreases l,
{
    if l == 0 {
        assert(bits.subrange(pos as int, pos as int) =~= Seq::<bool>::empty());
    } else {
        lemma_shift_reg_fld(bits, pos, (l - 1) as nat);
        lemma_bits_value_extend(bits, pos as int, pos + l - 1);
        let one = bits.subrange(pos + l - 1, (pos + l) as int);
        assert(one.drop_last() =~= Seq::<bool>::empty());
        assert(one.last() == bits[pos + l - 1]);
        let bit: nat = if bits[pos + l - 1] {
            1
        } else {
            0
        };
        assert(bits_value(Seq::<bool>::empty()) == 0);
        assert(fld(bits, pos + l - 1, 1) == bit);
        assert(fld(bits, pos as int, l as int) == 2 * fld(bits, pos as int, l - 1) + bit);
        lemma_bits_value_bound(bits.subrange(pos as int, (pos + l) as int));
        lemma_two_pow_mono(l, 32);
        lemma_two_pow_32();
        lemma_small_mod(fld(bits, pos as int, l as int), 0x1_0000_0000);
    }
}

/// No code of `e` shorter than `len` bits is a leading part of the
/// `len`-bit code `code`.
pub open spec fn no_shorter_vlc_code(e: Seq<VlcEntry>, code: nat, len: nat) -> bool
    decreases len,
{
    if len <= 1 {
        true
    } else {
        vlc_lookup(e, (len - 1) as nat, code / 2, 0) is None && no_shorter_vlc_code(
            e,
            code / 2,
            (len - 1) as nat,
        )
    }
}

proof fn lemma_no_shorter_vlc_at(
    e: Seq<VlcEntry>,
    bits: Seq<bool>,
    pos: nat,
    code: nat,
    len: nat,
    j: nat,
)
    requires
        1 <= j < len,
        pos + len <= bits.len(),
        fld(bits, pos as int, len as int) == code,
        no_shorter_vlc_code(e, code, len),
    ensures
        vlc_lookup(e, j, fld(bits, pos as int, j as int), 0) is None,
    decreases len,
{
    lemma_fld_prefix(bits, pos, (len - 1) as nat, len);
    assert(two_pow(1) == 2) by {
        reveal_with_fuel(two_pow, 2);
    }
    if j < len - 1 {
        lemma_no_shorter_vlc_at(e, bits, pos, code / 2, (len - 1) as nat, j);
    }
}

/// Every stream that starts with the `len`-bit code `code` decodes through
/// book `v` to `value` (symbol plus offset), ending `len` bits on.
pub open spec fn vlc_code_decodes(v: Vlc, code: nat, len: nat, value: i32) -> bool {
    forall|bits: Seq<bool>, pos: nat|
        pos + len <= bits.len() && pos + len <= usize::MAX && fld(bits, pos as int, len as int)
            == code ==> #[trigger] spec_vlc_from(v, bits, pos, 1) == Ok::<(i32, nat), Error>(
            (value, pos + len),
        )
}

/// Whether `code` of `len` bits is the code of the first entry of `v`
/// with that length and code, and that entry decodes to `value`.
pub open spec fn vlc_code_is(v: Vlc, code: nat, len: nat, value: i32) -> bool {
    match vlc_lookup(v.entries@, len, code, 0) {
        Some(k) => (v.entries@[k as int].symbol + v.offset) as i32 == value,
        None => false,
    }
}

proof fn lemma_vlc_code_from(
    v: Vlc,
    bits: Seq<bool>,
    pos: nat,
    code: nat,
    len: nat,
    value: i32,
    l: nat,
)
    requires
        1 <= l <= len <= v.max_len,
        len <= 32,
        pos + len <= bits.len(),
        pos + len <= usize::MAX,
        fld(bits, pos as int, len as int) == code,
        no_shorter_vlc_code(v.entries@, code, len),
        vlc_code_is(v, code, len, value),
    ensures
        spec_vlc_from(v, bits, pos, l) == Ok::<(i32, nat), Error>((value, pos + len)),
    decreases len - l,
{
    lemma_shift_reg_fld(bits, pos, l);
    if l < len {
        lemma_no_shorter_vlc_at(v.entries@, bits, pos, code, len, l);
        lemma_vlc_code_from(v, bits, pos, code, len, value, l + 1);
    }
}

/// A code of `v` that no shorter code of `v` starts decodes to its entry.
proof fn lemma_vlc_code(v: Vlc, code: nat, len: nat, value: i32)
    requires
        1 <= len <= v.max_len,
        len <= 32,
        no_shorter_vlc_code(v.entries@, code, len),
        vlc_code_is(v, code, len, value),
    ensures
        vlc_code_decodes(v, code, len, value),
{
    assert forall|bits: Seq<bool>, pos: nat|
        pos + len <= bits.len() && pos + len <= usize::MAX && fld(bits, pos as int, len as int)
            == code implies #[trigger] spec_vlc_from(v, bits, pos, 1) == Ok::<(i32, nat), Error>(
        (value, pos + len),
    ) by {
        lemma_vlc_code_from(v, bits, pos, code, len, value, 1);
    }
}

impl Vlc {
    /// Decode the next symbol from the reader, one bit at a time, and
    /// return it with the book's offset added.
    #[verifier::loop_isolation(false)]
    pub fn decode(&self, r: &mut BitReader) -> (res: Result<i32, Error>)
        ensures
            final(r).bytes() == old(r).bytes(),
            match spec_vlc_from(*self, bits_of(old(r).bytes()), old(r).pos(), 1) {
                Ok((s, p)) => res == Ok::<i32, Error>(s) && final(r).pos() == p,
                Err(e) => res == Err::<i32, Error>(e),
            },
            res is Err ==> final(r).pos() == spec_vlc_stop(
                *self,
                bits_of(old(r).bytes()),
                old(r).pos(),
                1,
            ),
    {
        let ghost bits = bits_of(r.bytes());
        let ghost pos0 = r.pos();
        let mut acc: u32 = 0;
        let mut length: u16 = 1;
        while length <= self.max_len as u16
            invariant
                1 <= length <= self.max_len + 1,
                bits == bits_of(r.bytes()),
                r.bytes() == old(r).bytes(),
                pos0 == old(r).pos(),
                r.pos() == pos0 + length - 1,
                acc as nat == shift_reg(bits, pos0, (length - 1) as nat),
                spec_vlc_from(*self, bits, pos0, 1) == spec_vlc_from(*self, bits, pos0, length as nat),
                spec_vlc_stop(*self, bits, pos0, 1) == spec_vlc_stop(*self, bits, pos0, length as nat),
            decreases self.max_len + 1 - length,
        {
            let ghost p = r.pos();
            let bit = read_field(r, 1)?;
            proof {
                lemma_read_fixed_bound(bits, p, 1);
                assert(two_pow(1) == 2) by {
                    reveal_with_fuel(two_pow, 2);
                }
            }
            let ghost old_acc = acc;
            assert(((acc << 1u32) | bit) as nat == (2 * acc + bit) % 0x1_0000_0000) by (bit_vector)
                requires
                    bit <= 1,
            ;
            acc = (acc << 1u32) | bit;
            let mut k: usize = 0;
            while k < self.entries.len()
                invariant
                    k <= self.entries@.len(),
                    1 <= length <= self.max_len,
                    acc as nat == shift_reg(bits, pos0, length as nat),
                    vlc_lookup(self.entries@, length as nat, acc as nat, 0) == vlc_lookup(
                        self.entries@,
                        length as nat,
                        acc as nat,
                        k as nat,
                    ),
                decreases self.entries@.len() - k,
            {
                let e = self.entries[k];
                if e.length as u16 == length && e.code == acc {
                    return Ok(e.symbol as i32 + self.offset as i32);
                }
                k = k + 1;
            }
            length = length + 1;
        }
        Err(Error::HuffmanDecodeFailed { table: "VLC" })
    }
}

// ---------------------------------------------------------------------
// The code books of the Core stream
// ---------------------------------------------------------------------

/// Code book rows `(symbol, length)`.
pub const BITALLOC_12_A: [(i16, u8); 12] = [
    (0, 1),
    (1, 2),
    (2, 3),
    (3, 4),
    (4, 5),
    (5, 6),
    (11, 9),
    (10, 9),
    (9, 9),
    (8, 9),
    (7, 8),
    (6, 8),
];

/// Code book rows `(symbol, length)`.
pub const BITALLOC_12_B: [(i16, u8); 12] = [
    (1, 2),
    (2, 3),
    (4, 5),
    (11, 7),
    (10, 7),
    (9, 7),
    (8, 7),
    (7, 7),
    (6, 7),
    (5, 6),
    (3, 5),
    (0, 1),
];

/// Code book rows `(symbol, length)`.
pub const BITALLOC_12_C: [(i16, u8); 12] = [
    (0, 2),
    (4, 3),
    (7, 4),
    (11, 7),
    (10, 7),
    (9, 6),
    (8, 5),
    (3, 3),
    (2, 3),
    (6, 4),
    (5, 4),
    (1, 3),
];

/// Code book rows `(symbol, length)`.
pub const BITALLOC_12_D: [(i16, u8); 12] = [
    (2, 2),
    (3, 3),
    (4, 4),
    (5, 5),
    (6, 6),
    (7, 7),
    (8, 8),
    (9, 9),
    (11, 10),
    (10, 10),
    (1, 2),
    (0, 2),
];

/// Code book rows `(symbol, length)`.
pub const BITALLOC_12_E: [(i16, u8); 12] = [
    (1, 2),
    (2, 3),
    (3, 4),
    (4, 5),
    (9, 8),
    (8, 8),
    (6, 7),
    (7, 8),
    (11, 9),
    (10, 9),
    (5, 7),
    (0, 1),
];

/// Code book rows `(symbol, length)`.
pub const TM_0: [(i16, u8); 4] = [(0, 1), (1, 2), (2, 3), (3, 3)];

/// Code book rows `(symbol, length)`.
pub const TM_1: [(i16, u8); 4] = [(3, 1), (0, 2), (1, 3), (2, 3)];

/// Code book rows `(symbol, length)`.
pub const TM_2: [(i16, u8); 4] = [(2, 1), (3, 2), (0, 3), (1, 3)];

/// Code book rows `(symbol, length)`.
pub const TM_3: [(i16, u8); 4] = [(0, 2), (1, 2), (2, 2), (3, 2)];

/// Code book rows `(symbol, length)`.
pub const BITALLOC_3: [(i16, u8); 3] = [(1, 1), (2, 2), (0, 2)];

/// Code book rows `(symbol, length)`.
pub const BITALLOC_5_A: [(i16, u8); 5] = [(2, 1), (3, 2), (1, 3), (4, 4), (0, 4)];

/// Code book rows `(symbol, length)`.
pub const BITALLOC_5_B: [(i16, u8); 5] = [(3, 2), (1, 2), (2, 2), (4, 3), (0, 3)];

/// Code book rows `(symbol, length)`.
pub const BITALLOC_5_C: [(i16, u8); 5] = [(2, 1), (3, 3), (1, 3), (4, 3), (0, 3)];

/// Code book rows `(symbol, length)`.
pub const BITALLOC_7_A: [(i16, u8); 7] = [(3, 1), (5, 3), (2, 3), (4, 3), (1, 4), (0, 5), (6, 5)];

/// Code book rows `(symbol, length)`.
pub const BITALLOC_7_B: [(i16, u8); 7] = [(2, 2), (4, 2), (5, 3), (0, 5), (6, 5), (1, 4), (3, 2)];

/// Code book rows `(symbol, length)`.
pub const BITALLOC_7_C: [(i16, u8); 7] = [(0, 4), (6, 4), (1, 4), (5, 4), (2, 2), (4, 2), (3, 2)];

/// Code book rows `(symbol, length)`.
pub const BITALLOC_9_A: [(i16, u8); 9] = [
    (4, 1),
    (7, 4),
    (2, 4),
    (3, 3),
    (0, 6),
    (8, 6),
    (1, 5),
    (6, 4),
    (5, 3),
];

/// Code book rows `(symbol, length)`.
pub const BITALLOC_9_B: [(i16, u8); 9] = [
    (5, 2),
    (2, 3),
    (6, 3),
    (4, 2),
    (0, 5),
    (8, 5),
    (1, 5),
    (7, 5),
    (3, 3),
];

/// Code book rows `(symbol, length)`.
pub const BITALLOC_9_C: [(i16, u8); 9] = [
    (5, 2),
    (2, 3),
    (7, 4),
    (0, 6),
    (8, 6),
    (1, 5),
    (4, 2),
    (6, 3),
    (3, 3),
];

/// Code book rows `(symbol, length)`.
pub const BITALLOC_13_A: [(i16, u8); 13] = [
    (6, 1),
    (7, 3),
    (9, 4),
    (10, 5),
    (1, 6),
    (11, 6),
    (4, 4),
    (8, 4),
    (0, 7),
    (12, 7),
    (2, 6),
    (3, 5),
    (5, 4),
];

/// Code book rows `(symbol, length)`.
pub const BITALLOC_13_B: [(i16, u8); 13] = [
    (6, 2),
    (8, 3),
    (10, 4),
    (3, 4),
    (1, 5),
    (11, 5),
    (9, 4),
    (5, 3),
    (7, 3),
    (0, 6),
    (12, 6),
    (2, 5),
    (4, 4),
];

/// Code book rows `(symbol, length)`.
pub const BITALLOC_13_C: [(i16, u8); 13] = [
    (4, 3),
    (0, 5),
    (12, 5),
    (2, 4),
    (8, 3),
    (5, 3),
    (7, 3),
    (6, 3),
    (10, 4),
    (1, 5),
    (11, 5),
    (3, 4),
    (9, 4),
];

proof fn lemma_small_rows_fit(rows: Seq<(i16, u8)>)
    requires
        rows.len() <= 16,
        forall|i: int| 0 <= i < rows.len() ==> #[trigger] rows[i].1 <= 16,
    ensures
        rows_fit(rows),
{
    lemma2_to64();
    assert forall|i: int| #![trigger rows[i]] 0 <= i < rows.len() implies rows.len() * pow2(
        rows[i].1 as nat,
    ) < 0x1_0000_0000 by {
        let l = rows[i].1 as nat;
        if l < 16 {
            lemma_pow2_strictly_increases(l, 16);
        }
        assert(rows.len() * pow2(l) <= 16 * pow2(16)) by (nonlinear_arith)
            requires
                rows.len() <= 16,
                pow2(l) <= pow2(16),
        ;
    }
}

/// The rows of the bit-allocation code book of size class `class` and
/// variant `sub`, and its offset.
pub open spec fn bitalloc_rows(class: usize, sub: usize) -> (Seq<(i16, u8)>, i16) {
    if class == 0 {
        (BITALLOC_3@, BITALLOC_OFFSETS@[0])
    } else if class == 1 && sub == 0 {
        (BITALLOC_5_A@, BITALLOC_OFFSETS@[1])
    } else if class == 1 && sub == 1 {
        (BITALLOC_5_B@, BITALLOC_OFFSETS@[1])
    } else if class == 1 && sub == 2 {
        (BITALLOC_5_C@, BITALLOC_OFFSETS@[1])
    } else if class == 2 && sub == 0 {
        (BITALLOC_7_A@, BITALLOC_OFFSETS@[2])
    } else if class == 2 && sub == 1 {
        (BITALLOC_7_B@, BITALLOC_OFFSETS@[2])
    } else if class == 2 && sub == 2 {
        (BITALLOC_7_C@, BITALLOC_OFFSETS@[2])
    } else if class == 3 && sub == 0 {
        (BITALLOC_9_A@, BITALLOC_OFFSETS@[3])
    } else if class == 3 && sub == 1 {
        (BITALLOC_9_B@, BITALLOC_OFFSETS@[3])
    } else if class == 3 && sub == 2 {
        (BITALLOC_9_C@, BITALLOC_OFFSETS@[3])
    } else if class == 4 && sub == 0 {
        (BITALLOC_13_A@, BITALLOC_OFFSETS@[4])
    } else if class == 4 && sub == 1 {
        (BITALLOC_13_B@, BITALLOC_OFFSETS@[4])
    } else if class == 4 && sub == 2 {
        (BITALLOC_13_C@, BITALLOC_OFFSETS@[4])
    } else {
        (seq![(0i16, 1u8)], 0i16)
    }
}

/// The bit-allocation code book of size class `class` (0..10, sizes 3,
/// 5, 7, 9, 13, ...) and variant `sub`; classes and variants without
/// rows give the one-code book `(0, 1)` with offset 0.
pub fn bitalloc_codebook(class: usize, sub: usize) -> (r: Vlc)
    requires
        class < 10,
    ensures
        is_built_from(r, bitalloc_rows(class, sub).0, bitalloc_rows(class, sub).1),
{
    let offset = BITALLOC_OFFSETS[class];
    let rows: &[(i16, u8)] = if class == 0 {
        BITALLOC_3.as_slice()
    } else if class == 1 && sub == 0 {
        BITALLOC_5_A.as_slice()
    } else if class == 1 && sub == 1 {
        BITALLOC_5_B.as_slice()
    } else if class == 1 && sub == 2 {
        BITALLOC_5_C.as_slice()
    } else if class == 2 && sub == 0 {
        BITALLOC_7_A.as_slice()
    } else if class == 2 && sub == 1 {
        BITALLOC_7_B.as_slice()
    } else if class == 2 && sub == 2 {
        BITALLOC_7_C.as_slice()
    } else if class == 3 && sub == 0 {
        BITALLOC_9_A.as_slice()
    } else if class == 3 && sub == 1 {
        BITALLOC_9_B.as_slice()
    } else if class == 3 && sub == 2 {
        BITALLOC_9_C.as_slice()
    } else if class == 4 && sub == 0 {
        BITALLOC_13_A.as_slice()
    } else if class == 4 && sub == 1 {
        BITALLOC_13_B.as_slice()
    } else if class == 4 && sub == 2 {
        BITALLOC_13_C.as_slice()
    } else {
        let fallback = [(0i16, 1u8)];
        proof {
            assert(fallback@ =~= seq![(0i16, 1u8)]);
            lemma_small_rows_fit(fallback@);
            lemma_rows_fit_builds(fallback@);
        }
        return Vlc::build(fallback.as_slice(), 0);
    };
    proof {
        lemma_small_rows_fit(rows@);
        lemma_rows_fit_builds(rows@);
    }
    Vlc::build(rows, offset)
}

/// The rows of the 12-entry ABITS code book `BHUFF = idx` (0..4; other
/// values select book A).
pub open spec fn bhuff_rows(idx: usize) -> Seq<(i16, u8)> {
    if idx == 1 {
        BITALLOC_12_B@
    } else if idx == 2 {
        BITALLOC_12_C@
    } else if idx == 3 {
        BITALLOC_12_D@
    } else if idx == 4 {
        BITALLOC_12_E@
    } else {
        BITALLOC_12_A@
    }
}

/// The 12-entry ABITS code book `BHUFF = idx`; the decoded symbol plus
/// one is ABITS.
pub fn bhuff_codebook(idx: usize) -> (r: Vlc)
    ensures
        is_built_from(r, bhuff_rows(idx), BITALLOC_12_OFFSET),
{
    let rows: &[(i16, u8)] = if idx == 1 {
        BITALLOC_12_B.as_slice()
    } else if idx == 2 {
        BITALLOC_12_C.as_slice()
    } else if idx == 3 {
        BITALLOC_12_D.as_slice()
    } else if idx == 4 {
        BITALLOC_12_E.as_slice()
    } else {
        BITALLOC_12_A.as_slice()
    };
    proof {
        lemma_small_rows_fit(rows@);
        lemma_rows_fit_builds(rows@);
    }
    Vlc::build(rows, BITALLOC_12_OFFSET)
}

/// The rows of the transition-mode code book `THUFF = idx` (0..3; other
/// values select book 0).
pub open spec fn thuff_rows(idx: usize) -> Seq<(i16, u8)> {
    if idx == 1 {
        TM_1@
    } else if idx == 2 {
        TM_2@
    } else if idx == 3 {
        TM_3@
    } else {
        TM_0@
    }
}

/// The transition-mode code book `THUFF = idx`.
pub fn thuff_codebook(idx: usize) -> (r: Vlc)
    ensures
        is_built_from(r, thuff_rows(idx), 0),
{
    let rows: &[(i16, u8)] = if idx == 1 {
        TM_1.as_slice()
    } else if idx == 2 {
        TM_2.as_slice()
    } else if idx == 3 {
        TM_3.as_slice()
    } else {
        TM_0.as_slice()
    };
    proof {
        lemma_small_rows_fit(rows@);
        lemma_rows_fit_builds(rows@);
    }
    Vlc::build(rows, 0)
}


proof fn lemma_with_len_absent(rows: Seq<(i16, u8)>, l: nat, n: nat)
    requires
        n <= rows.len(),
        forall|i: int| 0 <= i < rows.len() ==> rows[i].1 as nat != l,
    ensures
        with_len(rows, l, n) =~= Seq::<(i16, u8)>::empty(),
    decreases n,
{
    if n > 0 {
        lemma_with_len_absent(rows, l, (n - 1) as nat);
    }
}

/// Rows all shorter than `m` bits are ordered within the first `m` lengths.
proof fn lemma_canonical_below(rows: Seq<(i16, u8)>, m: nat, k: nat)
    requires
        m <= k,
        forall|i: int| 0 <= i < rows.len() ==> (rows[i].1 as nat) < m,
    ensures
        by_len_below(rows, k) == by_len_below(rows, m),
    decreases k,
{
    if m < k {
        lemma_canonical_below(rows, m, (k - 1) as nat);
        lemma_with_len_absent(rows, (k - 1) as nat, rows.len());
        assert(by_len_below(rows, k) =~= by_len_below(rows, (k - 1) as nat));
    }
}

/// The four codes of a transition-mode book, shortest first.
proof fn lemma_tm_book(v: Vlc, rows: Seq<(i16, u8)>, s0: i16, s1: i16, s2: i16, s3: i16)
    requires
        is_built_from(v, rows, 0),
        rows == seq![(s0, 1u8), (s1, 2u8), (s2, 3u8), (s3, 3u8)],
    ensures
        vlc_code_decodes(v, 0b0, 1, s0 as i32),
        vlc_code_decodes(v, 0b10, 2, s1 as i32),
        vlc_code_decodes(v, 0b110, 3, s2 as i32),
        vlc_code_decodes(v, 0b111, 3, s3 as i32),
{
    lemma_canonical_below(rows, 4, 256);
    reveal_with_fuel(by_len_below, 5);
    reveal_with_fuel(with_len, 5);
    assert(canonical_order(rows) =~= rows);
    lemma2_to64();
    reveal_with_fuel(canon_state, 5);
    let e = v.entries@;
    assert(e[0] == VlcEntry { code: 0, length: 1, symbol: s0 });
    assert(e[1] == VlcEntry { code: 2, length: 2, symbol: s1 });
    assert(e[2] == VlcEntry { code: 6, length: 3, symbol: s2 });
    assert(e[3] == VlcEntry { code: 7, length: 3, symbol: s3 });
    assert(v.max_len >= 3) by {
        assert(rows[2].1 <= v.max_len);
    }
    reveal_with_fuel(vlc_lookup, 5);
    reveal_with_fuel(no_shorter_vlc_code, 4);
    lemma_vlc_code(v, 0b0, 1, s0 as i32);
    lemma_vlc_code(v, 0b10, 2, s1 as i32);
    lemma_vlc_code(v, 0b110, 3, s2 as i32);
    lemma_vlc_code(v, 0b111, 3, s3 as i32);
}

/// The transition-mode books, code by code. THUFF 0 (and any value past
/// 3): 0 -> 0, 10 -> 1, 110 -> 2, 111 -> 3. THUFF 1: 0 -> 3, 10 -> 0,
/// 110 -> 1, 111 -> 2. THUFF 2: 0 -> 2, 10 -> 3, 110 -> 0, 111 -> 1.
/// THUFF 3: 00 -> 0, 01 -> 1, 10 -> 2, 11 -> 3.
pub proof fn lemma_thuff_codes(idx: usize, v: Vlc)
    requires
        is_built_from(v, thuff_rows(idx), 0),
    ensures
        (idx == 0 || idx > 3) ==> vlc_code_decodes(v, 0b0, 1, 0) && vlc_code_decodes(v, 0b10, 2, 1)
            && vlc_code_decodes(v, 0b110, 3, 2) && vlc_code_decodes(v, 0b111, 3, 3),
        idx == 1 ==> vlc_code_decodes(v, 0b0, 1, 3) && vlc_code_decodes(v, 0b10, 2, 0)
            && vlc_code_decodes(v, 0b110, 3, 1) && vlc_code_decodes(v, 0b111, 3, 2),
        idx == 2 ==> vlc_code_decodes(v, 0b0, 1, 2) && vlc_code_decodes(v, 0b10, 2, 3)
            && vlc_code_decodes(v, 0b110, 3, 0) && vlc_code_decodes(v, 0b111, 3, 1),
        idx == 3 ==> vlc_code_decodes(v, 0b00, 2, 0) && vlc_code_decodes(v, 0b01, 2, 1)
            && vlc_code_decodes(v, 0b10, 2, 2) && vlc_code_decodes(v, 0b11, 2, 3),
{
    if idx == 1 {
        lemma_tm_book(v, TM_1@, 3, 0, 1, 2);
    } else if idx == 2 {
        lemma_tm_book(v, TM_2@, 2, 3, 0, 1);
    } else if idx == 3 {
        let rows = TM_3@;
        assert(rows == seq![(0i16, 2u8), (1i16, 2u8), (2i16, 2u8), (3i16, 2u8)]);
        lemma_canonical_below(rows, 3, 256);
        reveal_with_fuel(by_len_below, 4);
        reveal_with_fuel(with_len, 5);
        assert(canonical_order(rows) =~= rows);
        lemma2_to64();
        reveal_with_fuel(canon_state, 5);
        let e = v.entries@;
        assert(e[0] == VlcEntry { code: 0, length: 2, symbol: 0 });
        assert(e[1] == VlcEntry { code: 1, length: 2, symbol: 1 });
        assert(e[2] == VlcEntry { code: 2, length: 2, symbol: 2 });
        assert(e[3] == VlcEntry { code: 3, length: 2, symbol: 3 });
        assert(v.max_len >= 2) by {
            assert(rows[0].1 <= v.max_len);
        }
        reveal_with_fuel(vlc_lookup, 5);
        reveal_with_fuel(no_shorter_vlc_code, 3);
        lemma_vlc_code(v, 0b00, 2, 0);
        lemma_vlc_code(v, 0b01, 2, 1);
        lemma_vlc_code(v, 0b10, 2, 2);
        lemma_vlc_code(v, 0b11, 2, 3);
    } else {
        lemma_tm_book(v, TM_0@, 0, 1, 2, 3);
    }
}


/// Every code of the book built from `BITALLOC_12_A`, in canonical order, decodes
/// to its row's symbol plus the book's offset.
#[verifier::rlimit(50)]
#[verifier::spinoff_prover]
proof fn lemma_book_bitalloc_12_a(v: Vlc, off: i16)
    requires
        is_built_from(v, BITALLOC_12_A@, off),
    ensures
        vlc_code_decodes(v, 0b0, 1, (0 + off) as i32),
        vlc_code_decodes(v, 0b10, 2, (1 + off) as i32),
        vlc_code_decodes(v, 0b110, 3, (2 + off) as i32),
        vlc_code_decodes(v, 0b1110, 4, (3 + off) as i32),
        vlc_code_decodes(v, 0b11110, 5, (4 + off) as i32),
        vlc_code_decodes(v, 0b111110, 6, (5 + off) as i32),
        vlc_code_decodes(v, 0b11111100, 8, (7 + off) as i32),
        vlc_code_decodes(v, 0b11111101, 8, (6 + off) as i32),
        vlc_code_decodes(v, 0b111111100, 9, (11 + off) as i32),
        vlc_code_decodes(v, 0b111111101, 9, (10 + off) as i32),
        vlc_code_decodes(v, 0b111111110, 9, (9 + off) as i32),
        vlc_code_decodes(v, 0b111111111, 9, (8 + off) as i32),
{
    let rows = BITALLOC_12_A@;
    assert(rows == seq![(0i16, 1u8), (1i16, 2u8), (2i16, 3u8), (3i16, 4u8), (4i16, 5u8), (5i16, 6u8), (11i16, 9u8), (10i16, 9u8), (9i16, 9u8), (8i16, 9u8), (7i16, 8u8), (6i16, 8u8)]);
    lemma_canonical_below(rows, 10, 256);
    assert(canonical_order(rows) =~= seq![(0i16, 1u8), (1i16, 2u8), (2i16, 3u8), (3i16, 4u8), (4i16, 5u8), (5i16, 6u8), (7i16, 8u8), (6i16, 8u8), (11i16, 9u8), (10i16, 9u8), (9i16, 9u8), (8i16, 9u8)]) by {
        reveal_with_fuel(by_len_below, 11);
        reveal_with_fuel(with_len, 13);
    }
    lemma2_to64();
    let e = v.entries@;
    let co = canonical_order(rows);
    assert(e.len() == 12);
    assert(canon_state(co, 0) == (0nat, 0nat));
    assert(canon_state(co, 1) == (1nat, 1nat)) by {
        assert(co[0] == (0i16, 1u8));
        assert(shifted(0, 0, 1) == 0) by {
            assert(pow2(1) == 2);
        }
    }
    assert(canon_state(co, 2) == (3nat, 2nat)) by {
        assert(co[1] == (1i16, 2u8));
        assert(shifted(1, 1, 2) == 2) by {
            assert(pow2(1) == 2);
        }
    }
    assert(canon_state(co, 3) == (7nat, 3nat)) by {
        assert(co[2] == (2i16, 3u8));
        assert(shifted(3, 2, 3) == 6) by {
            assert(pow2(1) == 2);
        }
    }
    assert(canon_state(co, 4) == (15nat, 4nat)) by {
        assert(co[3] == (3i16, 4u8));
        assert(shifted(7, 3, 4) == 14) by {
            assert(pow2(1) == 2);
        }
    }
    assert(canon_state(co, 5) == (31nat, 5nat)) by {
        assert(co[4] == (4i16, 5u8));
        assert(shifted(15, 4, 5) == 30) by {
            assert(pow2(1) == 2);
        }
    }
    assert(canon_state(co, 6) == (63nat, 6nat)) by {
        assert(co[5] == (5i16, 6u8));
        assert(shifted(31, 5, 6) == 62) by {
            assert(pow2(1) == 2);
        }
    }
    assert(canon_state(co, 7) == (253nat, 8nat)) by {
        assert(co[6] == (7i16, 8u8));
        assert(shifted(63, 6, 8) == 252) by {
            assert(pow2(2) == 4);
        }
    }
    assert(canon_state(co, 8) == (254nat, 8nat)) by {
        assert(co[7] == (6i16, 8u8));
        assert(shifted(253, 8, 8) == 253) by {
            assert(pow2(0) == 1);
        }
    }
    assert(canon_state(co, 9) == (509nat, 9nat)) by {
        assert(co[8] == (11i16, 9u8));
        assert(shifted(254, 8, 9) == 508) by {
            assert(pow2(1) == 2);
        }
    }
    assert(canon_state(co, 10) == (510nat, 9nat)) by {
        assert(co[9] == (10i16, 9u8));
        assert(shifted(509, 9, 9) == 509) by {
            assert(pow2(0) == 1);
        }
    }
    assert(canon_state(co, 11) == (511nat, 9nat)) by {
        assert(co[10] == (9i16, 9u8));
        assert(shifted(510, 9, 9) == 510) by {
            assert(pow2(0) == 1);
        }
    }
    assert(canon_state(co, 12) == (512nat, 9nat)) by {
        assert(co[11] == (8i16, 9u8));
        assert(shifted(511, 9, 9) == 511) by {
            assert(pow2(0) == 1);
        }
    }
    assert(e[0] == VlcEntry { code: 0, length: 1, symbol: 0 });
    assert(e[1] == VlcEntry { code: 2, length: 2, symbol: 1 });
    assert(e[2] == VlcEntry { code: 6, length: 3, symbol: 2 });
    assert(e[3] == VlcEntry { code: 14, length: 4, symbol: 3 });
    assert(e[4] == VlcEntry { code: 30, length: 5, symbol: 4 });
    assert(e[5] == VlcEntry { code: 62, length: 6, symbol: 5 });
    assert(e[6] == VlcEntry { code: 252, length: 8, symbol: 7 });
    assert(e[7] == VlcEntry { code: 253, length: 8, symbol: 6 });
    assert(e[8] == VlcEntry { code: 508, length: 9, symbol: 11 });
    assert(e[9] == VlcEntry { code: 509, length: 9, symbol: 10 });
    assert(e[10] == VlcEntry { code: 510, length: 9, symbol: 9 });
    assert(e[11] == VlcEntry { code: 511, length: 9, symbol: 8 });
    assert(v.max_len >= 9) by {
        assert(rows[6].1 <= v.max_len);
    }
    reveal_with_fuel(vlc_lookup, 13);
    reveal_with_fuel(no_shorter_vlc_code, 10);
    lemma_vlc_code(v, 0b0, 1, (0 + off) as i32);
    lemma_vlc_code(v, 0b10, 2, (1 + off) as i32);
    lemma_vlc_code(v, 0b110, 3, (2 + off) as i32);
    lemma_vlc_code(v, 0b1110, 4, (3 + off) as i32);
    lemma_vlc_code(v, 0b11110, 5, (4 + off) as i32);
    lemma_vlc_code(v, 0b111110, 6, (5 + off) as i32);
    lemma_vlc_code(v, 0b11111100, 8, (7 + off) as i32);
    lemma_vlc_code(v, 0b11111101, 8, (6 + off) as i32);
    lemma_vlc_code(v, 0b111111100, 9, (11 + off) as i32);
    lemma_vlc_code(v, 0b111111101, 9, (10 + off) as i32);
    lemma_vlc_code(v, 0b111111110, 9, (9 + off) as i32);
    lemma_vlc_code(v, 0b111111111, 9, (8 + off) as i32);
}

/// Every code of the book built from `BITALLOC_12_B`, in canonical order, decodes
/// to its row's symbol plus the book's offset.
#[verifier::rlimit(50)]
#[verifier::spinoff_prover]
proof fn lemma_book_bitalloc_12_b(v: Vlc, off: i16)
    requires
        is_built_from(v, BITALLOC_12_B@, off),
    ensures
        vlc_code_decodes(v, 0b0, 1, (0 + off) as i32),
        vlc_code_decodes(v, 0b10, 2, (1 + off) as i32),
        vlc_code_decodes(v, 0b110, 3, (2 + off) as i32),
        vlc_code_decodes(v, 0b11100, 5, (4 + off) as i32),
        vlc_code_decodes(v, 0b11101, 5, (3 + off) as i32),
        vlc_code_decodes(v, 0b111100, 6, (5 + off) as i32),
        vlc_code_decodes(v, 0b1111010, 7, (11 + off) as i32),
        vlc_code_decodes(v, 0b1111011, 7, (10 + off) as i32),
        vlc_code_decodes(v, 0b1111100, 7, (9 + off) as i32),
        vlc_code_decodes(v, 0b1111101, 7, (8 + off) as i32),
        vlc_code_decodes(v, 0b1111110, 7, (7 + off) as i32),
        vlc_code_decodes(v, 0b1111111, 7, (6 + off) as i32),
{
    let rows = BITALLOC_12_B@;
    assert(rows == seq![(1i16, 2u8), (2i16, 3u8), (4i16, 5u8), (11i16, 7u8), (10i16, 7u8), (9i16, 7u8), (8i16, 7u8), (7i16, 7u8), (6i16, 7u8), (5i16, 6u8), (3i16, 5u8), (0i16, 1u8)]);
    lemma_canonical_below(rows, 8, 256);
    assert(canonical_order(rows) =~= seq![(0i16, 1u8), (1i16, 2u8), (2i16, 3u8), (4i16, 5u8), (3i16, 5u8), (5i16, 6u8), (11i16, 7u8), (10i16, 7u8), (9i16, 7u8), (8i16, 7u8), (7i16, 7u8), (6i16, 7u8)]) by {
        reveal_with_fuel(by_len_below, 9);
        reveal_with_fuel(with_len, 13);
    }
    lemma2_to64();
    let e = v.entries@;
    let co = canonical_order(rows);
    assert(e.len() == 12);
    assert(canon_state(co, 0) == (0nat, 0nat));
    assert(canon_state(co, 1) == (1nat, 1nat)) by {
        assert(co[0] == (0i16, 1u8));
        assert(shifted(0, 0, 1) == 0) by {
            assert(pow2(1) == 2);
        }
    }
    assert(canon_state(co, 2) == (3nat, 2nat)) by {
        assert(co[1] == (1i16, 2u8));
        assert(shifted(1, 1, 2) == 2) by {
            assert(pow2(1) == 2);
        }
    }
    assert(canon_state(co, 3) == (7nat, 3nat)) by {
        assert(co[2] == (2i16, 3u8));
        assert(shifted(3, 2, 3) == 6) by {
            assert(pow2(1) == 2);
        }
    }
    assert(canon_state(co, 4) == (29nat, 5nat)) by {
        assert(co[3] == (4i16, 5u8));
        assert(shifted(7, 3, 5) == 28) by {
            assert(pow2(2) == 4);
        }
    }
    assert(canon_state(co, 5) == (30nat, 5nat)) by {
        assert(co[4] == (3i16, 5u8));
        assert(shifted(29, 5, 5) == 29) by {
            assert(pow2(0) == 1);
        }
    }
    assert(canon_state(co, 6) == (61nat, 6nat)) by {
        assert(co[5] == (5i16, 6u8));
        assert(shifted(30, 5, 6) == 60) by {
            assert(pow2(1) == 2);
        }
    }
    assert(canon_state(co, 7) == (123nat, 7nat)) by {
        assert(co[6] == (11i16, 7u8));
        assert(shifted(61, 6, 7) == 122) by {
            assert(pow2(1) == 2);
        }
    }
    assert(canon_state(co, 8) == (124nat, 7nat)) by {
        assert(co[7] == (10i16, 7u8));
        assert(shifted(123, 7, 7) == 123) by {
            assert(pow2(0) == 1);
        }
    }
    assert(canon_state(co, 9) == (125nat, 7nat)) by {
        assert(co[8] == (9i16, 7u8));
        assert(shifted(124, 7, 7) == 124) by {
            assert(pow2(0) == 1);
        }
    }
    assert(canon_state(co, 10) == (126nat, 7nat)) by {
        assert(co[9] == (8i16, 7u8));
        assert(shifted(125, 7, 7) == 125) by {
            assert(pow2(0) == 1);
        }
    }
    assert(canon_state(co, 11) == (127nat, 7nat)) by {
        assert(co[10] == (7i16, 7u8));
        assert(shifted(126, 7, 7) == 126) by {
            assert(pow2(0) == 1);
        }
    }
    assert(canon_state(co, 12) == (128nat, 7nat)) by {
        assert(co[11] == (6i16, 7u8));
        assert(shifted(127, 7, 7) == 127) by {
            assert(pow2(0) == 1);
        }
    }
    assert(e[0] == VlcEntry { code: 0, length: 1, symbol: 0 });
    assert(e[1] == VlcEntry { code: 2, length: 2, symbol: 1 });
    assert(e[2] == VlcEntry { code: 6, length: 3, symbol: 2 });
    assert(e[3] == VlcEntry { code: 28, length: 5, symbol: 4 });
    assert(e[4] == VlcEntry { code: 29, length: 5, symbol: 3 });
    assert(e[5] == VlcEntry { code: 60, length: 6, symbol: 5 });
    assert(e[6] == VlcEntry { code: 122, length: 7, symbol: 11 });
    assert(e[7] == VlcEntry { code: 123, length: 7, symbol: 10 });
    assert(e[8] == VlcEntry { code: 124, length: 7, symbol: 9 });
    assert(e[9] == VlcEntry { code: 125, length: 7, symbol: 8 });
    assert(e[10] == VlcEntry { code: 126, length: 7, symbol: 7 });
    assert(e[11] == VlcEntry { code: 127, length: 7, symbol: 6 });
    assert(v.max_len >= 7) by {
        assert(rows[3].1 <= v.max_len);
    }
    reveal_with_fuel(vlc_lookup, 13);
    reveal_with_fuel(no_shorter_vlc_code, 8);
    lemma_vlc_code(v, 0b0, 1, (0 + off) as i32);
    lemma_vlc_code(v, 0b10, 2, (1 + off) as i32);
    lemma_vlc_code(v, 0b110, 3, (2 + off) as i32);
    lemma_vlc_code(v, 0b11100, 5, (4 + off) as i32);
    lemma_vlc_code(v, 0b11101, 5, (3 + off) as i32);
    lemma_vlc_code(v, 0b111100, 6, (5 + off) as i32);
    lemma_vlc_code(v, 0b1111010, 7, (11 + off) as i32);
    lemma_vlc_code(v, 0b1111011, 7, (10 + off) as i32);
    lemma_vlc_code(v, 0b1111100, 7, (9 + off) as i32);
    lemma_vlc_code(v, 0b1111101, 7, (8 + off) as i32);
    lemma_vlc_code(v, 0b1111110, 7, (7 + off) as i32);
    lemma_vlc_code(v, 0b1111111, 7, (6 + off) as i32);
}

/// Every code of the book built from `BITALLOC_12_C`, in canonical order, decodes
/// to its row's symbol plus the book's offset.
#[verifier::rlimit(50)]
#[verifier::spinoff_prover]
proof fn lemma_book_bitalloc_12_c(v: Vlc, off: i16)
    requires
        is_built_from(v, BITALLOC_12_C@, off),
    ensures
        vlc_code_decodes(v, 0b00, 2, (0 + off) as i32),
        vlc_code_decodes(v, 0b010, 3, (4 + off) as i32),
        vlc_code_decodes(v, 0b011, 3, (3 + off) as i32),
        vlc_code_decodes(v, 0b100, 3, (2 + off) as i32),
        vlc_code_decodes(v, 0b101, 3, (1 + off) as i32),
        vlc_code_decodes(v, 0b1100, 4, (7 + off) as i32),
        vlc_code_decodes(v, 0b1101, 4, (6 + off) as i32),
        vlc_code_decodes(v, 0b1110, 4, (5 + off) as i32),
        vlc_code_decodes(v, 0b11110, 5, (8 + off) as i32),
        vlc_code_decodes(v, 0b111110, 6, (9 + off) as i32),
        vlc_code_decodes(v, 0b1111110, 7, (11 + off) as i32),
        vlc_code_decodes(v, 0b1111111, 7, (10 + off) as i32),
{
    let rows = BITALLOC_12_C@;
    assert(rows == seq![(0i16, 2u8), (4i16, 3u8), (7i16, 4u8), (11i16, 7u8), (10i16, 7u8), (9i16, 6u8), (8i16, 5u8), (3i16, 3u8), (2i16, 3u8), (6i16, 4u8), (5i16, 4u8), (1i16, 3u8)]);
    lemma_canonical_below(rows, 8, 256);
    assert(canonical_order(rows) =~= seq![(0i16, 2u8), (4i16, 3u8), (3i16, 3u8), (2i16, 3u8), (1i16, 3u8), (7i16, 4u8), (6i16, 4u8), (5i16, 4u8), (8i16, 5u8), (9i16, 6u8), (11i16, 7u8), (10i16, 7u8)]) by {
        reveal_with_fuel(by_len_below, 9);
        reveal_with_fuel(with_len, 13);
    }
    lemma2_to64();
    let e = v.entries@;
    let co = canonical_order(rows);
    assert(e.len() == 12);
    assert(canon_state(co, 0) == (0nat, 0nat));
    assert(canon_state(co, 1) == (1nat, 2nat)) by {
        assert(co[0] == (0i16, 2u8));
        assert(shifted(0, 0, 2) == 0) by {
            assert(pow2(2) == 4);
        }
    }
    assert(canon_state(co, 2) == (3nat, 3nat)) by {
        assert(co[1] == (4i16, 3u8));
        assert(shifted(1, 2, 3) == 2) by {
            assert(pow2(1) == 2);
        }
    }
    assert(canon_state(co, 3) == (4nat, 3nat)) by {
        assert(co[2] == (3i16, 3u8));
        assert(shifted(3, 3, 3) == 3) by {
            assert(pow2(0) == 1);
        }
    }
    assert(canon_state(co, 4) == (5nat, 3nat)) by {
        assert(co[3] == (2i16, 3u8));
        assert(shifted(4, 3, 3) == 4) by {
            assert(pow2(0) == 1);
        }
    }
    assert(canon_state(co, 5) == (6nat, 3nat)) by {
        assert(co[4] == (1i16, 3u8));
        assert(shifted(5, 3, 3) == 5) by {
            assert(pow2(0) == 1);
        }
    }
    assert(canon_state(co, 6) == (13nat, 4nat)) by {
        assert(co[5] == (7i16, 4u8));
        assert(shifted(6, 3, 4) == 12) by {
            assert(pow2(1) == 2);
        }
    }
    assert(canon_state(co, 7) == (14nat, 4nat)) by {
        assert(co[6] == (6i16, 4u8));
        assert(shifted(13, 4, 4) == 13) by {
            assert(pow2(0) == 1);
        }
    }
    assert(canon_state(co, 8) == (15nat, 4nat)) by {
        assert(co[7] == (5i16, 4u8));
        assert(shifted(14, 4, 4) == 14) by {
            assert(pow2(0) == 1);
        }
    }
    assert(canon_state(co, 9) == (31nat, 5nat)) by {
        assert(co[8] == (8i16, 5u8));
        assert(shifted(15, 4, 5) == 30) by {
            assert(pow2(1) == 2);
        }
    }
    assert(canon_state(co, 10) == (63nat, 6nat)) by {
        assert(co[9] == (9i16, 6u8));
        assert(shifted(31, 5, 6) == 62) by {
            assert(pow2(1) == 2);
        }
    }
    assert(canon_state(co, 11) == (127nat, 7nat)) by {
        assert(co[10] == (11i16, 7u8));
        assert(shifted(63, 6, 7) == 126) by {
            assert(pow2(1) == 2);
        }
    }
    assert(canon_state(co, 12) == (128nat, 7nat)) by {
        assert(co[11] == (10i16, 7u8));
        assert(shifted(127, 7, 7) == 127) by {
            assert(pow2(0) == 1);
        }
    }
    assert(e[0] == VlcEntry { code: 0, length: 2, symbol: 0 });
    assert(e[1] == VlcEntry { code: 2, length: 3, symbol: 4 });
    assert(e[2] == VlcEntry { code: 3, length: 3, symbol: 3 });
    assert(e[3] == VlcEntry { code: 4, length: 3, symbol: 2 });
    assert(e[4] == VlcEntry { code: 5, length: 3, symbol: 1 });
    assert(e[5] == VlcEntry { code: 12, length: 4, symbol: 7 });
    assert(e[6] == VlcEntry { code: 13, length: 4, symbol: 6 });
    assert(e[7] == VlcEntry { code: 14, length: 4, symbol: 5 });
    assert(e[8] == VlcEntry { code: 30, length: 5, symbol: 8 });
    assert(e[9] == VlcEntry { code: 62, length: 6, symbol: 9 });
    assert(e[10] == VlcEntry { code: 126, length: 7, symbol: 11 });
    assert(e[11] == VlcEntry { code: 127, length: 7, symbol: 10 });
    assert(v.max_len >= 7) by {
        assert(rows[3].1 <= v.max_len);
    }
    reveal_with_fuel(vlc_lookup, 13);
    reveal_with_fuel(no_shorter_vlc_code, 8);
    lemma_vlc_code(v, 0b00, 2, (0 + off) as i32);
    lemma_vlc_code(v, 0b010, 3, (4 + off) as i32);
    lemma_vlc_code(v, 0b011, 3, (3 + off) as i32);
    lemma_vlc_code(v, 0b100, 3, (2 + off) as i32);
    lemma_vlc_code(v, 0b101, 3, (1 + off) as i32);
    lemma_vlc_code(v, 0b1100, 4, (7 + off) as i32);
    lemma_vlc_code(v, 0b1101, 4, (6 + off) as i32);
    lemma_vlc_code(v, 0b1110, 4, (5 + off) as i32);
    lemma_vlc_code(v, 0b11110, 5, (8 + off) as i32);
    lemma_vlc_code(v, 0b111110, 6, (9 + off) as i32);
    lemma_vlc_code(v, 0b1111110, 7, (11 + off) as i32);
    lemma_vlc_code(v, 0b1111111, 7, (10 + off) as i32);
}

/// Every code of the book built from `BITALLOC_12_D`, in canonical order, decodes
/// to its row's symbol plus the book's offset.
#[verifier::rlimit(50)]
#[verifier::spinoff_prover]
proof fn lemma_book_bitalloc_12_d(v: Vlc, off: i16)
    requires
        is_built_from(v, BITALLOC_12_D@, off),
    ensures
        vlc_code_decodes(v, 0b00, 2, (2 + off) as i32),
        vlc_code_decodes(v, 0b01, 2, (1 + off) as i32),
        vlc_code_decodes(v, 0b10, 2, (0 + off) as i32),
        vlc_code_decodes(v, 0b110, 3, (3 + off) as i32),
        vlc_code_decodes(v, 0b1110, 4, (4 + off) as i32),
        vlc_code_decodes(v, 0b11110, 5, (5 + off) as i32),
        vlc_code_decodes(v, 0b111110, 6, (6 + off) as i32),
        vlc_code_decodes(v, 0b1111110, 7, (7 + off) as i32),
        vlc_code_decodes(v, 0b11111110, 8, (8 + off) as i32),
        vlc_code_decodes(v, 0b111111110, 9, (9 + off) as i32),
        vlc_code_decodes(v, 0b1111111110, 10, (11 + off) as i32),
        vlc_code_decodes(v, 0b1111111111, 10, (10 + off) as i32),
{
    let rows = BITALLOC_12_D@;
    assert(rows == seq![(2i16, 2u8), (3i16, 3u8), (4i16, 4u8), (5i16, 5u8), (6i16, 6u8), (7i16, 7u8), (8i16, 8u8), (9i16, 9u8), (11i16, 10u8), (10i16, 10u8), (1i16, 2u8), (0i16, 2u8)]);
    lemma_canonical_below(rows, 11, 256);
    assert(canonical_order(rows) =~= seq![(2i16, 2u8), (1i16, 2u8), (0i16, 2u8), (3i16, 3u8), (4i16, 4u8), (5i16, 5u8), (6i16, 6u8), (7i16, 7u8), (8i16, 8u8), (9i16, 9u8), (11i16, 10u8), (10i16, 10u8)]) by {
        reveal_with_fuel(by_len_below, 12);
        reveal_with_fuel(with_len, 13);
    }
    lemma2_to64();
    let e = v.entries@;
    let co = canonical_order(rows);
    assert(e.len() == 12);
    assert(canon_state(co, 0) == (0nat, 0nat));
    assert(canon_state(co, 1) == (1nat, 2nat)) by {
        assert(co[0] == (2i16, 2u8));
        assert(shifted(0, 0, 2) == 0) by {
            assert(pow2(2) == 4);
        }
    }
    assert(canon_state(co, 2) == (2nat, 2nat)) by {
        assert(co[1] == (1i16, 2u8));
        assert(shifted(1, 2, 2) == 1) by {
            assert(pow2(0) == 1);
        }
    }
    assert(canon_state(co, 3) == (3nat, 2nat)) by {
        assert(co[2] == (0i16, 2u8));
        assert(shifted(2, 2, 2) == 2) by {
            assert(pow2(0) == 1);
        }
    }
    assert(canon_state(co, 4) == (7nat, 3nat)) by {
        assert(co[3] == (3i16, 3u8));
        assert(shifted(3, 2, 3) == 6) by {
            assert(pow2(1) == 2);
        }
    }
    assert(canon_state(co, 5) == (15nat, 4nat)) by {
        assert(co[4] == (4i16, 4u8));
        assert(shifted(7, 3, 4) == 14) by {
            assert(pow2(1) == 2);
        }
    }
    assert(canon_state(co, 6) == (31nat, 5nat)) by {
        assert(co[5] == (5i16, 5u8));
        assert(shifted(15, 4, 5) == 30) by {
            assert(pow2(1) == 2);
        }
    }
    assert(canon_state(co, 7) == (63nat, 6nat)) by {
        assert(co[6] == (6i16, 6u8));
        assert(shifted(31, 5, 6) == 62) by {
            assert(pow2(1) == 2);
        }
    }
    assert(canon_state(co, 8) == (127nat, 7nat)) by {
        assert(co[7] == (7i16, 7u8));
        assert(shifted(63, 6, 7) == 126) by {
            assert(pow2(1) == 2);
        }
    }
    assert(canon_state(co, 9) == (255nat, 8nat)) by {
        assert(co[8] == (8i16, 8u8));
        assert(shifted(127, 7, 8) == 254) by {
            assert(pow2(1) == 2);
        }
    }
    assert(canon_state(co, 10) == (511nat, 9nat)) by {
        assert(co[9] == (9i16, 9u8));
        assert(shifted(255, 8, 9) == 510) by {
            assert(pow2(1) == 2);
        }
    }
    assert(canon_state(co, 11) == (1023nat, 10nat)) by {
        assert(co[10] == (11i16, 10u8));
        assert(shifted(511, 9, 10) == 1022) by {
            assert(pow2(1) == 2);
        }
    }
    assert(canon_state(co, 12) == (1024nat, 10nat)) by {
        assert(co[11] == (10i16, 10u8));
        assert(shifted(1023, 10, 10) == 1023) by {
            assert(pow2(0) == 1);
        }
    }
    assert(e[0] == VlcEntry { code: 0, length: 2, symbol: 2 });
    assert(e[1] == VlcEntry { code: 1, length: 2, symbol: 1 });
    assert(e[2] == VlcEntry { code: 2, length: 2, symbol: 0 });
    assert(e[3] == VlcEntry { code: 6, length: 3, symbol: 3 });
    assert(e[4] == VlcEntry { code: 14, length: 4, symbol: 4 });
    assert(e[5] == VlcEntry { code: 30, length: 5, symbol: 5 });
    assert(e[6] == VlcEntry { code: 62, length: 6, symbol: 6 });
    assert(e[7] == VlcEntry { code: 126, length: 7, symbol: 7 });
    assert(e[8] == VlcEntry { code: 254, length: 8, symbol: 8 });
    assert(e[9] == VlcEntry { code: 510, length: 9, symbol: 9 });
    assert(e[10] == VlcEntry { code: 1022, length: 10, symbol: 11 });
    assert(e[11] == VlcEntry { code: 1023, length: 10, symbol: 10 });
    assert(v.max_len >= 10) by {
        assert(rows[8].1 <= v.max_len);
    }
    reveal_with_fuel(vlc_lookup, 13);
    reveal_with_fuel(no_shorter_vlc_code, 11);
    lemma_vlc_code(v, 0b00, 2, (2 + off) as i32);
    lemma_vlc_code(v, 0b01, 2, (1 + off) as i32);
    lemma_vlc_code(v, 0b10, 2, (0 + off) as i32);
    lemma_vlc_code(v, 0b110, 3, (3 + off) as i32);
    lemma_vlc_code(v, 0b1110, 4, (4 + off) as i32);
    lemma_vlc_code(v, 0b11110, 5, (5 + off) as i32);
    lemma_vlc_code(v, 0b111110, 6, (6 + off) as i32);
    lemma_vlc_code(v, 0b1111110, 7, (7 + off) as i32);
    lemma_vlc_code(v, 0b11111110, 8, (8 + off) as i32);
    lemma_vlc_code(v, 0b111111110, 9, (9 + off) as i32);
    lemma_vlc_code(v, 0b1111111110, 10, (11 + off) as i32);
    lemma_vlc_code(v, 0b1111111111, 10, (10 + off) as i32);
}

/// Every code of the book built from `BITALLOC_12_E`, in canonical order, decodes
/// to its row's symbol plus the book's offset.
#[verifier::rlimit(50)]
#[verifier::spinoff_prover]
proof fn lemma_book_bitalloc_12_e(v: Vlc, off: i16)
    requires
        is_built_from(v, BITALLOC_12_E@, off),
    ensures
        vlc_code_decodes(v, 0b0, 1, (0 + off) as i32),
        vlc_code_decodes(v, 0b10, 2, (1 + off) as i32),
        vlc_code_decodes(v, 0b110, 3, (2 + off) as i32),
        vlc_code_decodes(v, 0b1110, 4, (3 + off) as i32),
        vlc_code_decodes(v, 0b11110, 5, (4 + off) as i32),
        vlc_code_decodes(v, 0b1111100, 7, (6 + off) as i32),
        vlc_code_decodes(v, 0b1111101, 7, (5 + off) as i32),
        vlc_code_decodes(v, 0b11111100, 8, (9 + off) as i32),
        vlc_code_decodes(v, 0b11111101, 8, (8 + off) as i32),
        vlc_code_decodes(v, 0b11111110, 8, (7 + off) as i32),
        vlc_code_decodes(v, 0b111111110, 9, (11 + off) as i32),
        vlc_code_decodes(v, 0b111111111, 9, (10 + off) as i32),
{
    let rows = BITALLOC_12_E@;
    assert(rows == seq![(1i16, 2u8), (2i16, 3u8), (3i16, 4u8), (4i16, 5u8), (9i16, 8u8), (8i16, 8u8), (6i16, 7u8), (7i16, 8u8), (11i16, 9u8), (10i16, 9u8), (5i16, 7u8), (0i16, 1u8)]);
    lemma_canonical_below(rows, 10, 256);
    assert(canonical_order(rows) =~= seq![(0i16, 1u8), (1i16, 2u8), (2i16, 3u8), (3i16, 4u8), (4i16, 5u8), (6i16, 7u8), (5i16, 7u8), (9i16, 8u8), (8i16, 8u8), (7i16, 8u8), (11i16, 9u8), (10i16, 9u8)]) by {
        reveal_with_fuel(by_len_below, 11);
        reveal_with_fuel(with_len, 13);
    }
    lemma2_to64();
    let e = v.entries@;
    let co = canonical_order(rows);
    assert(e.len() == 12);
    assert(canon_state(co, 0) == (0nat, 0nat));
    assert(canon_state(co, 1) == (1nat, 1nat)) by {
        assert(co[0] == (0i16, 1u8));
        assert(shifted(0, 0, 1) == 0) by {
            assert(pow2(1) == 2);
        }
    }
    assert(canon_state(co, 2) == (3nat, 2nat)) by {
        assert(co[1] == (1i16, 2u8));
        assert(shifted(1, 1, 2) == 2) by {
            assert(pow2(1) == 2);
        }
    }
    assert(canon_state(co, 3) == (7nat, 3nat)) by {
        assert(co[2] == (2i16, 3u8));
        assert(shifted(3, 2, 3) == 6) by {
            assert(pow2(1) == 2);
        }
    }
    assert(canon_state(co, 4) == (15nat, 4nat)) by {
        assert(co[3] == (3i16, 4u8));
        assert(shifted(7, 3, 4) == 14) by {
            assert(pow2(1) == 2);
        }
    }
    assert(canon_state(co, 5) == (31nat, 5nat)) by {
        assert(co[4] == (4i16, 5u8));
        assert(shifted(15, 4, 5) == 30) by {
            assert(pow2(1) == 2);
        }
    }
    assert(canon_state(co, 6) == (125nat, 7nat)) by {
        assert(co[5] == (6i16, 7u8));
        assert(shifted(31, 5, 7) == 124) by {
            assert(pow2(2) == 4);
        }
    }
    assert(canon_state(co, 7) == (126nat, 7nat)) by {
        assert(co[6] == (5i16, 7u8));
        assert(shifted(125, 7, 7) == 125) by {
            assert(pow2(0) == 1);
        }
    }
    assert(canon_state(co, 8) == (253nat, 8nat)) by {
        assert(co[7] == (9i16, 8u8));
        assert(shifted(126, 7, 8) == 252) by {
            assert(pow2(1) == 2);
        }
    }
    assert(canon_state(co, 9) == (254nat, 8nat)) by {
        assert(co[8] == (8i16, 8u8));
        assert(shifted(253, 8, 8) == 253) by {
            assert(pow2(0) == 1);
        }
    }
    assert(canon_state(co, 10) == (255nat, 8nat)) by {
        assert(co[9] == (7i16, 8u8));
        assert(shifted(254, 8, 8) == 254) by {
            assert(pow2(0) == 1);
        }
    }
    assert(canon_state(co, 11) == (511nat, 9nat)) by {
        assert(co[10] == (11i16, 9u8));
        assert(shifted(255, 8, 9) == 510) by {
            assert(pow2(1) == 2);
        }
    }
    assert(canon_state(co, 12) == (512nat, 9nat)) by {
        assert(co[11] == (10i16, 9u8));
        assert(shifted(511, 9, 9) == 511) by {
            assert(pow2(0) == 1);
        }
    }
    assert(e[0] == VlcEntry { code: 0, length: 1, symbol: 0 });
    assert(e[1] == VlcEntry { code: 2, length: 2, symbol: 1 });
    assert(e[2] == VlcEntry { code: 6, length: 3, symbol: 2 });
    assert(e[3] == VlcEntry { code: 14, length: 4, symbol: 3 });
    assert(e[4] == VlcEntry { code: 30, length: 5, symbol: 4 });
    assert(e[5] == VlcEntry { code: 124, length: 7, symbol: 6 });
    assert(e[6] == VlcEntry { code: 125, length: 7, symbol: 5 });
    assert(e[7] == VlcEntry { code: 252, length: 8, symbol: 9 });
    assert(e[8] == VlcEntry { code: 253, length: 8, symbol: 8 });
    assert(e[9] == VlcEntry { code: 254, length: 8, symbol: 7 });
    assert(e[10] == VlcEntry { code: 510, length: 9, symbol: 11 });
    assert(e[11] == VlcEntry { code: 511, length: 9, symbol: 10 });
    assert(v.max_len >= 9) by {
        assert(rows[8].1 <= v.max_len);
    }
    reveal_with_fuel(vlc_lookup, 13);
    reveal_with_fuel(no_shorter_vlc_code, 10);
    lemma_vlc_code(v, 0b0, 1, (0 + off) as i32);
    lemma_vlc_code(v, 0b10, 2, (1 + off) as i32);
    lemma_vlc_code(v, 0b110, 3, (2 + off) as i32);
    lemma_vlc_code(v, 0b1110, 4, (3 + off) as i32);
    lemma_vlc_code(v, 0b11110, 5, (4 + off) as i32);
    lemma_vlc_code(v, 0b1111100, 7, (6 + off) as i32);
    lemma_vlc_code(v, 0b1111101, 7, (5 + off) as i32);
    lemma_vlc_code(v, 0b11111100, 8, (9 + off) as i32);
    lemma_vlc_code(v, 0b11111101, 8, (8 + off) as i32);
    lemma_vlc_code(v, 0b11111110, 8, (7 + off) as i32);
    lemma_vlc_code(v, 0b111111110, 9, (11 + off) as i32);
    lemma_vlc_code(v, 0b111111111, 9, (10 + off) as i32);
}

/// Every code of the book built from `BITALLOC_3`, in canonical order, decodes
/// to its row's symbol plus the book's offset.
#[verifier::rlimit(50)]
#[verifier::spinoff_prover]
proof fn lemma_book_bitalloc_3(v: Vlc, off: i16)
    requires
        is_built_from(v, BITALLOC_3@, off),
    ensures
        vlc_code_decodes(v, 0b0, 1, (1 + off) as i32),
        vlc_code_decodes(v, 0b10, 2, (2 + off) as i32),
        vlc_code_decodes(v, 0b11, 2, (0 + off) as i32),
{
    let rows = BITALLOC_3@;
    assert(rows == seq![(1i16, 1u8), (2i16, 2u8), (0i16, 2u8)]);
    lemma_canonical_below(rows, 3, 256);
    assert(canonical_order(rows) =~= seq![(1i16, 1u8), (2i16, 2u8), (0i16, 2u8)]) by {
        reveal_with_fuel(by_len_below, 4);
        reveal_with_fuel(with_len, 4);
    }
    lemma2_to64();
    let e = v.entries@;
    let co = canonical_order(rows);
    assert(e.len() == 3);
    assert(canon_state(co, 0) == (0nat, 0nat));
    assert(canon_state(co, 1) == (1nat, 1nat)) by {
        assert(co[0] == (1i16, 1u8));
        assert(shifted(0, 0, 1) == 0) by {
            assert(pow2(1) == 2);
        }
    }
    assert(canon_state(co, 2) == (3nat, 2nat)) by {
        assert(co[1] == (2i16, 2u8));
        assert(shifted(1, 1, 2) == 2) by {
            assert(pow2(1) == 2);
        }
    }
    assert(canon_state(co, 3) == (4nat, 2nat)) by {
        assert(co[2] == (0i16, 2u8));
        assert(shifted(3, 2, 2) == 3) by {
            assert(pow2(0) == 1);
        }
    }
    assert(e[0] == VlcEntry { code: 0, length: 1, symbol: 1 });
    assert(e[1] == VlcEntry { code: 2, length: 2, symbol: 2 });
    assert(e[2] == VlcEntry { code: 3, length: 2, symbol: 0 });
    assert(v.max_len >= 2) by {
        assert(rows[1].1 <= v.max_len);
    }
    reveal_with_fuel(vlc_lookup, 4);
    reveal_with_fuel(no_shorter_vlc_code, 3);
    lemma_vlc_code(v, 0b0, 1, (1 + off) as i32);
    lemma_vlc_code(v, 0b10, 2, (2 + off) as i32);
    lemma_vlc_code(v, 0b11, 2, (0 + off) as i32);
}

/// Every code of the book built from `BITALLOC_5_A`, in canonical order, decodes
/// to its row's symbol plus the book's offset.
#[verifier::rlimit(50)]
#[verifier::spinoff_prover]
proof fn lemma_book_bitalloc_5_a(v: Vlc, off: i16)
    requires
        is_built_from(v, BITALLOC_5_A@, off),
    ensures
        vlc_code_decodes(v, 0b0, 1, (2 + off) as i32),
        vlc_code_decodes(v, 0b10, 2, (3 + off) as i32),
        vlc_code_decodes(v, 0b110, 3, (1 + off) as i32),
        vlc_code_decodes(v, 0b1110, 4, (4 + off) as i32),
        vlc_code_decodes(v, 0b1111, 4, (0 + off) as i32),
{
    let rows = BITALLOC_5_A@;
    assert(rows == seq![(2i16, 1u8), (3i16, 2u8), (1i16, 3u8), (4i16, 4u8), (0i16, 4u8)]);
    lemma_canonical_below(rows, 5, 256);
    assert(canonical_order(rows) =~= seq![(2i16, 1u8), (3i16, 2u8), (1i16, 3u8), (4i16, 4u8), (0i16, 4u8)]) by {
        reveal_with_fuel(by_len_below, 6);
        reveal_with_fuel(with_len, 6);
    }
    lemma2_to64();
    let e = v.entries@;
    let co = canonical_order(rows);
    assert(e.len() == 5);
    assert(canon_state(co, 0) == (0nat, 0nat));
    assert(canon_state(co, 1) == (1nat, 1nat)) by {
        assert(co[0] == (2i16, 1u8));
        assert(shifted(0, 0, 1) == 0) by {
            assert(pow2(1) == 2);
        }
    }
    assert(canon_state(co, 2) == (3nat, 2nat)) by {
        assert(co[1] == (3i16, 2u8));
        assert(shifted(1, 1, 2) == 2) by {
            assert(pow2(1) == 2);
        }
    }
    assert(canon_state(co, 3) == (7nat, 3nat)) by {
        assert(co[2] == (1i16, 3u8));
        assert(shifted(3, 2, 3) == 6) by {
            assert(pow2(1) == 2);
        }
    }
    assert(canon_state(co, 4) == (15nat, 4nat)) by {
        assert(co[3] == (4i16, 4u8));
        assert(shifted(7, 3, 4) == 14) by {
            assert(pow2(1) == 2);
        }
    }
    assert(canon_state(co, 5) == (16nat, 4nat)) by {
        assert(co[4] == (0i16, 4u8));
        assert(shifted(15, 4, 4) == 15) by {
            assert(pow2(0) == 1);
        }
    }
    assert(e[0] == VlcEntry { code: 0, length: 1, symbol: 2 });
    assert(e[1] == VlcEntry { code: 2, length: 2, symbol: 3 });
    assert(e[2] == VlcEntry { code: 6, length: 3, symbol: 1 });
    assert(e[3] == VlcEntry { code: 14, length: 4, symbol: 4 });
    assert(e[4] == VlcEntry { code: 15, length: 4, symbol: 0 });
    assert(v.max_len >= 4) by {
        assert(rows[3].1 <= v.max_len);
    }
    reveal_with_fuel(vlc_lookup, 6);
    reveal_with_fuel(no_shorter_vlc_code, 5);
    lemma_vlc_code(v, 0b0, 1, (2 + off) as i32);
    lemma_vlc_code(v, 0b10, 2, (3 + off) as i32);
    lemma_vlc_code(v, 0b110, 3, (1 + off) as i32);
    lemma_vlc_code(v, 0b1110, 4, (4 + off) as i32);
    lemma_vlc_code(v, 0b1111, 4, (0 + off) as i32);
}

/// Every code of the book built from `BITALLOC_5_B`, in canonical order, decodes
/// to its row's symbol plus the book's offset.
#[verifier::rlimit(50)]
#[verifier::spinoff_prover]
proof fn lemma_book_bitalloc_5_b(v: Vlc, off: i16)
    requires
        is_built_from(v, BITALLOC_5_B@, off),
    ensures
        vlc_code_decodes(v, 0b00, 2, (3 + off) as i32),
        vlc_code_decodes(v, 0b01, 2, (1 + off) as i32),
        vlc_code_decodes(v, 0b10, 2, (2 + off) as i32),
        vlc_code_decodes(v, 0b110, 3, (4 + off) as i32),
        vlc_code_decodes(v, 0b111, 3, (0 + off) as i32),
{
    let rows = BITALLOC_5_B@;
    assert(rows == seq![(3i16, 2u8), (1i16, 2u8), (2i16, 2u8), (4i16, 3u8), (0i16, 3u8)]);
    lemma_canonical_below(rows, 4, 256);
    assert(canonical_order(rows) =~= seq![(3i16, 2u8), (1i16, 2u8), (2i16, 2u8), (4i16, 3u8), (0i16, 3u8)]) by {
        reveal_with_fuel(by_len_below, 5);
        reveal_with_fuel(with_len, 6);
    }
    lemma2_to64();
    let e = v.entries@;
    let co = canonical_order(rows);
    assert(e.len() == 5);
    assert(canon_state(co, 0) == (0nat, 0nat));
    assert(canon_state(co, 1) == (1nat, 2nat)) by {
        assert(co[0] == (3i16, 2u8));
        assert(shifted(0, 0, 2) == 0) by {
            assert(pow2(2) == 4);
        }
    }
    assert(canon_state(co, 2) == (2nat, 2nat)) by {
        assert(co[1] == (1i16, 2u8));
        assert(shifted(1, 2, 2) == 1) by {
            assert(pow2(0) == 1);
        }
    }
    assert(canon_state(co, 3) == (3nat, 2nat)) by {
        assert(co[2] == (2i16, 2u8));
        assert(shifted(2, 2, 2) == 2) by {
            assert(pow2(0) == 1);
        }
    }
    assert(canon_state(co, 4) == (7nat, 3nat)) by {
        assert(co[3] == (4i16, 3u8));
        assert(shifted(3, 2, 3) == 6) by {
            assert(pow2(1) == 2);
        }
    }
    assert(canon_state(co, 5) == (8nat, 3nat)) by {
        assert(co[4] == (0i16, 3u8));
        assert(shifted(7, 3, 3) == 7) by {
            assert(pow2(0) == 1);
        }
    }
    assert(e[0] == VlcEntry { code: 0, length: 2, symbol: 3 });
    assert(e[1] == VlcEntry { code: 1, length: 2, symbol: 1 });
    assert(e[2] == VlcEntry { code: 2, length: 2, symbol: 2 });
    assert(e[3] == VlcEntry { code: 6, length: 3, symbol: 4 });
    assert(e[4] == VlcEntry { code: 7, length: 3, symbol: 0 });
    assert(v.max_len >= 3) by {
        assert(rows[3].1 <= v.max_len);
    }
    reveal_with_fuel(vlc_lookup, 6);
    reveal_with_fuel(no_shorter_vlc_code, 4);
    lemma_vlc_code(v, 0b00, 2, (3 + off) as i32);
    lemma_vlc_code(v, 0b01, 2, (1 + off) as i32);
    lemma_vlc_code(v, 0b10, 2, (2 + off) as i32);
    lemma_vlc_code(v, 0b110, 3, (4 + off) as i32);
    lemma_vlc_code(v, 0b111, 3, (0 + off) as i32);
}

/// Every code of the book built from `BITALLOC_5_C`, in canonical order, decodes
/// to its row's symbol plus the book's offset.
#[verifier::rlimit(50)]
#[verifier::spinoff_prover]
proof fn lemma_book_bitalloc_5_c(v: Vlc, off: i16)
    requires
        is_built_from(v, BITALLOC_5_C@, off),
    ensures
        vlc_code_decodes(v, 0b0, 1, (2 + off) as i32),
        vlc_code_decodes(v, 0b100, 3, (3 + off) as i32),
        vlc_code_decodes(v, 0b101, 3, (1 + off) as i32),
        vlc_code_decodes(v, 0b110, 3, (4 + off) as i32),
        vlc_code_decodes(v, 0b111, 3, (0 + off) as i32),
{
    let rows = BITALLOC_5_C@;
    assert(rows == seq![(2i16, 1u8), (3i16, 3u8), (1i16, 3u8), (4i16, 3u8), (0i16, 3u8)]);
    lemma_canonical_below(rows, 4, 256);
    assert(canonical_order(rows) =~= seq![(2i16, 1u8), (3i16, 3u8), (1i16, 3u8), (4i16, 3u8), (0i16, 3u8)]) by {
        reveal_with_fuel(by_len_below, 5);
        reveal_with_fuel(with_len, 6);
    }
    lemma2_to64();
    let e = v.entries@;
    let co = canonical_order(rows);
    assert(e.len() == 5);
    assert(canon_state(co, 0) == (0nat, 0nat));
    assert(canon_state(co, 1) == (1nat, 1nat)) by {
        assert(co[0] == (2i16, 1u8));
        assert(shifted(0, 0, 1) == 0) by {
            assert(pow2(1) == 2);
        }
    }
    assert(canon_state(co, 2) == (5nat, 3nat)) by {
        assert(co[1] == (3i16, 3u8));
        assert(shifted(1, 1, 3) == 4) by {
            assert(pow2(2) == 4);
        }
    }
    assert(canon_state(co, 3) == (6nat, 3nat)) by {
        assert(co[2] == (1i16, 3u8));
        assert(shifted(5, 3, 3) == 5) by {
            assert(pow2(0) == 1);
        }
    }
    assert(canon_state(co, 4) == (7nat, 3nat)) by {
        assert(co[3] == (4i16, 3u8));
        assert(shifted(6, 3, 3) == 6) by {
            assert(pow2(0) == 1);
        }
    }
    assert(canon_state(co, 5) == (8nat, 3nat)) by {
        assert(co[4] == (0i16, 3u8));
        assert(shifted(7, 3, 3) == 7) by {
            assert(pow2(0) == 1);
        }
    }
    assert(e[0] == VlcEntry { code: 0, length: 1, symbol: 2 });
    assert(e[1] == VlcEntry { code: 4, length: 3, symbol: 3 });
    assert(e[2] == VlcEntry { code: 5, length: 3, symbol: 1 });
    assert(e[3] == VlcEntry { code: 6, length: 3, symbol: 4 });
    assert(e[4] == VlcEntry { code: 7, length: 3, symbol: 0 });
    assert(v.max_len >= 3) by {
        assert(rows[1].1 <= v.max_len);
    }
    reveal_with_fuel(vlc_lookup, 6);
    reveal_with_fuel(no_shorter_vlc_code, 4);
    lemma_vlc_code(v, 0b0, 1, (2 + off) as i32);
    lemma_vlc_code(v, 0b100, 3, (3 + off) as i32);
    lemma_vlc_code(v, 0b101, 3, (1 + off) as i32);
    lemma_vlc_code(v, 0b110, 3, (4 + off) as i32);
    lemma_vlc_code(v, 0b111, 3, (0 + off) as i32);
}

/// Every code of the book built from `BITALLOC_7_A`, in canonical order, decodes
/// to its row's symbol plus the book's offset.
#[verifier::rlimit(50)]
#[verifier::spinoff_prover]
proof fn lemma_book_bitalloc_7_a(v: Vlc, off: i16)
    requires
        is_built_from(v, BITALLOC_7_A@, off),
    ensures
        vlc_code_decodes(v, 0b0, 1, (3 + off) as i32),
        vlc_code_decodes(v, 0b100, 3, (5 + off) as i32),
        vlc_code_decodes(v, 0b101, 3, (2 + off) as i32),
        vlc_code_decodes(v, 0b110, 3, (4 + off) as i32),
        vlc_code_decodes(v, 0b1110, 4, (1 + off) as i32),
        vlc_code_decodes(v, 0b11110, 5, (0 + off) as i32),
        vlc_code_decodes(v, 0b11111, 5, (6 + off) as i32),
{
    let rows = BITALLOC_7_A@;
    assert(rows == seq![(3i16, 1u8), (5i16, 3u8), (2i16, 3u8), (4i16, 3u8), (1i16, 4u8), (0i16, 5u8), (6i16, 5u8)]);
    lemma_canonical_below(rows, 6, 256);
    assert(canonical_order(rows) =~= seq![(3i16, 1u8), (5i16, 3u8), (2i16, 3u8), (4i16, 3u8), (1i16, 4u8), (0i16, 5u8), (6i16, 5u8)]) by {
        reveal_with_fuel(by_len_below, 7);
        reveal_with_fuel(with_len, 8);
    }
    lemma2_to64();
    let e = v.entries@;
    let co = canonical_order(rows);
    assert(e.len() == 7);
    assert(canon_state(co, 0) == (0nat, 0nat));
    assert(canon_state(co, 1) == (1nat, 1nat)) by {
        assert(co[0] == (3i16, 1u8));
        assert(shifted(0, 0, 1) == 0) by {
            assert(pow2(1) == 2);
        }
    }
    assert(canon_state(co, 2) == (5nat, 3nat)) by {
        assert(co[1] == (5i16, 3u8));
        assert(shifted(1, 1, 3) == 4) by {
            assert(pow2(2) == 4);
        }
    }
    assert(canon_state(co, 3) == (6nat, 3nat)) by {
        assert(co[2] == (2i16, 3u8));
        assert(shifted(5, 3, 3) == 5) by {
            assert(pow2(0) == 1);
        }
    }
    assert(canon_state(co, 4) == (7nat, 3nat)) by {
        assert(co[3] == (4i16, 3u8));
        assert(shifted(6, 3, 3) == 6) by {
            assert(pow2(0) == 1);
        }
    }
    assert(canon_state(co, 5) == (15nat, 4nat)) by {
        assert(co[4] == (1i16, 4u8));
        assert(shifted(7, 3, 4) == 14) by {
            assert(pow2(1) == 2);
        }
    }
    assert(canon_state(co, 6) == (31nat, 5nat)) by {
        assert(co[5] == (0i16, 5u8));
        assert(shifted(15, 4, 5) == 30) by {
            assert(pow2(1) == 2);
        }
    }
    assert(canon_state(co, 7) == (32nat, 5nat)) by {
        assert(co[6] == (6i16, 5u8));
        assert(shifted(31, 5, 5) == 31) by {
            assert(pow2(0) == 1);
        }
    }
    assert(e[0] == VlcEntry { code: 0, length: 1, symbol: 3 });
    assert(e[1] == VlcEntry { code: 4, length: 3, symbol: 5 });
    assert(e[2] == VlcEntry { code: 5, length: 3, symbol: 2 });
    assert(e[3] == VlcEntry { code: 6, length: 3, symbol: 4 });
    assert(e[4] == VlcEntry { code: 14, length: 4, symbol: 1 });
    assert(e[5] == VlcEntry { code: 30, length: 5, symbol: 0 });
    assert(e[6] == VlcEntry { code: 31, length: 5, symbol: 6 });
    assert(v.max_len >= 5) by {
        assert(rows[5].1 <= v.max_len);
    }
    reveal_with_fuel(vlc_lookup, 8);
    reveal_with_fuel(no_shorter_vlc_code, 6);
    lemma_vlc_code(v, 0b0, 1, (3 + off) as i32);
    lemma_vlc_code(v, 0b100, 3, (5 + off) as i32);
    lemma_vlc_code(v, 0b101, 3, (2 + off) as i32);
    lemma_vlc_code(v, 0b110, 3, (4 + off) as i32);
    lemma_vlc_code(v, 0b1110, 4, (1 + off) as i32);
    lemma_vlc_code(v, 0b11110, 5, (0 + off) as i32);
    lemma_vlc_code(v, 0b11111, 5, (6 + off) as i32);
}

/// Every code of the book built from `BITALLOC_7_B`, in canonical order, decodes
/// to its row's symbol plus the book's offset.
#[verifier::rlimit(50)]
#[verifier::spinoff_prover]
proof fn lemma_book_bitalloc_7_b(v: Vlc, off: i16)
    requires
        is_built_from(v, BITALLOC_7_B@, off),
    ensures
        vlc_code_decodes(v, 0b00, 2, (2 + off) as i32),
        vlc_code_decodes(v, 0b01, 2, (4 + off) as i32),
        vlc_code_decodes(v, 0b10, 2, (3 + off) as i32),
        vlc_code_decodes(v, 0b110, 3, (5 + off) as i32),
        vlc_code_decodes(v, 0b1110, 4, (1 + off) as i32),
        vlc_code_decodes(v, 0b11110, 5, (0 + off) as i32),
        vlc_code_decodes(v, 0b11111, 5, (6 + off) as i32),
{
    let rows = BITALLOC_7_B@;
    assert(rows == seq![(2i16, 2u8), (4i16, 2u8), (5i16, 3u8), (0i16, 5u8), (6i16, 5u8), (1i16, 4u8), (3i16, 2u8)]);
    lemma_canonical_below(rows, 6, 256);
    assert(canonical_order(rows) =~= seq![(2i16, 2u8), (4i16, 2u8), (3i16, 2u8), (5i16, 3u8), (1i16, 4u8), (0i16, 5u8), (6i16, 5u8)]) by {
        reveal_with_fuel(by_len_below, 7);
        reveal_with_fuel(with_len, 8);
    }
    lemma2_to64();
    let e = v.entries@;
    let co = canonical_order(rows);
    assert(e.len() == 7);
    assert(canon_state(co, 0) == (0nat, 0nat));
    assert(canon_state(co, 1) == (1nat, 2nat)) by {
        assert(co[0] == (2i16, 2u8));
        assert(shifted(0, 0, 2) == 0) by {
            assert(pow2(2) == 4);
        }
    }
    assert(canon_state(co, 2) == (2nat, 2nat)) by {
        assert(co[1] == (4i16, 2u8));
        assert(shifted(1, 2, 2) == 1) by {
            assert(pow2(0) == 1);
        }
    }
    assert(canon_state(co, 3) == (3nat, 2nat)) by {
        assert(co[2] == (3i16, 2u8));
        assert(shifted(2, 2, 2) == 2) by {
            assert(pow2(0) == 1);
        }
    }
    assert(canon_state(co, 4) == (7nat, 3nat)) by {
        assert(co[3] == (5i16, 3u8));
        assert(shifted(3, 2, 3) == 6) by {
            assert(pow2(1) == 2);
        }
    }
    assert(canon_state(co, 5) == (15nat, 4nat)) by {
        assert(co[4] == (1i16, 4u8));
        assert(shifted(7, 3, 4) == 14) by {
            assert(pow2(1) == 2);
        }
    }
    assert(canon_state(co, 6) == (31nat, 5nat)) by {
        assert(co[5] == (0i16, 5u8));
        assert(shifted(15, 4, 5) == 30) by {
            assert(pow2(1) == 2);
        }
    }
    assert(canon_state(co, 7) == (32nat, 5nat)) by {
        assert(co[6] == (6i16, 5u8));
        assert(shifted(31, 5, 5) == 31) by {
            assert(pow2(0) == 1);
        }
    }
    assert(e[0] == VlcEntry { code: 0, length: 2, symbol: 2 });
    assert(e[1] == VlcEntry { code: 1, length: 2, symbol: 4 });
    assert(e[2] == VlcEntry { code: 2, length: 2, symbol: 3 });
    assert(e[3] == VlcEntry { code: 6, length: 3, symbol: 5 });
    assert(e[4] == VlcEntry { code: 14, length: 4, symbol: 1 });
    assert(e[5] == VlcEntry { code: 30, length: 5, symbol: 0 });
    assert(e[6] == VlcEntry { code: 31, length: 5, symbol: 6 });
    assert(v.max_len >= 5) by {
        assert(rows[3].1 <= v.max_len);
    }
    reveal_with_fuel(vlc_lookup, 8);
    reveal_with_fuel(no_shorter_vlc_code, 6);
    lemma_vlc_code(v, 0b00, 2, (2 + off) as i32);
    lemma_vlc_code(v, 0b01, 2, (4 + off) as i32);
    lemma_vlc_code(v, 0b10, 2, (3 + off) as i32);
    lemma_vlc_code(v, 0b110, 3, (5 + off) as i32);
    lemma_vlc_code(v, 0b1110, 4, (1 + off) as i32);
    lemma_vlc_code(v, 0b11110, 5, (0 + off) as i32);
    lemma_vlc_code(v, 0b11111, 5, (6 + off) as i32);
}

/// Every code of the book built from `BITALLOC_7_C`, in canonical order, decodes
/// to its row's symbol plus the book's offset.
#[verifier::rlimit(50)]
#[verifier::spinoff_prover]
proof fn lemma_book_bitalloc_7_c(v: Vlc, off: i16)
    requires
        is_built_from(v, BITALLOC_7_C@, off),
    ensures
        vlc_code_decodes(v, 0b00, 2, (2 + off) as i32),
        vlc_code_decodes(v, 0b01, 2, (4 + off) as i32),
        vlc_code_decodes(v, 0b10, 2, (3 + off) as i32),
        vlc_code_decodes(v, 0b1100, 4, (0 + off) as i32),
        vlc_code_decodes(v, 0b1101, 4, (6 + off) as i32),
        vlc_code_decodes(v, 0b1110, 4, (1 + off) as i32),
        vlc_code_decodes(v, 0b1111, 4, (5 + off) as i32),
{
    let rows = BITALLOC_7_C@;
    assert(rows == seq![(0i16, 4u8), (6i16, 4u8), (1i16, 4u8), (5i16, 4u8), (2i16, 2u8), (4i16, 2u8), (3i16, 2u8)]);
    lemma_canonical_below(rows, 5, 256);
    assert(canonical_order(rows) =~= seq![(2i16, 2u8), (4i16, 2u8), (3i16, 2u8), (0i16, 4u8), (6i16, 4u8), (1i16, 4u8), (5i16, 4u8)]) by {
        reveal_with_fuel(by_len_below, 6);
        reveal_with_fuel(with_len, 8);
    }
    lemma2_to64();
    let e = v.entries@;
    let co = canonical_order(rows);
    assert(e.len() == 7);
    assert(canon_state(co, 0) == (0nat, 0nat));
    assert(canon_state(co, 1) == (1nat, 2nat)) by {
        assert(co[0] == (2i16, 2u8));
        assert(shifted(0, 0, 2) == 0) by {
            assert(pow2(2) == 4);
        }
    }
    assert(canon_state(co, 2) == (2nat, 2nat)) by {
        assert(co[1] == (4i16, 2u8));
        assert(shifted(1, 2, 2) == 1) by {
            assert(pow2(0) == 1);
        }
    }
    assert(canon_state(co, 3) == (3nat, 2nat)) by {
        assert(co[2] == (3i16, 2u8));
        assert(shifted(2, 2, 2) == 2) by {
            assert(pow2(0) == 1);
        }
    }
    assert(canon_state(co, 4) == (13nat, 4nat)) by {
        assert(co[3] == (0i16, 4u8));
        assert(shifted(3, 2, 4) == 12) by {
            assert(pow2(2) == 4);
        }
    }
    assert(canon_state(co, 5) == (14nat, 4nat)) by {
        assert(co[4] == (6i16, 4u8));
        assert(shifted(13, 4, 4) == 13) by {
            assert(pow2(0) == 1);
        }
    }
    assert(canon_state(co, 6) == (15nat, 4nat)) by {
        assert(co[5] == (1i16, 4u8));
        assert(shifted(14, 4, 4) == 14) by {
            assert(pow2(0) == 1);
        }
    }
    assert(canon_state(co, 7) == (16nat, 4nat)) by {
        assert(co[6] == (5i16, 4u8));
        assert(shifted(15, 4, 4) == 15) by {
            assert(pow2(0) == 1);
        }
    }
    assert(e[0] == VlcEntry { code: 0, length: 2, symbol: 2 });
    assert(e[1] == VlcEntry { code: 1, length: 2, symbol: 4 });
    assert(e[2] == VlcEntry { code: 2, length: 2, symbol: 3 });
    assert(e[3] == VlcEntry { code: 12, length: 4, symbol: 0 });
    assert(e[4] == VlcEntry { code: 13, length: 4, symbol: 6 });
    assert(e[5] == VlcEntry { code: 14, length: 4, symbol: 1 });
    assert(e[6] == VlcEntry { code: 15, length: 4, symbol: 5 });
    assert(v.max_len >= 4) by {
        assert(rows[0].1 <= v.max_len);
    }
    reveal_with_fuel(vlc_lookup, 8);
    reveal_with_fuel(no_shorter_vlc_code, 5);
    lemma_vlc_code(v, 0b00, 2, (2 + off) as i32);
    lemma_vlc_code(v, 0b01, 2, (4 + off) as i32);
    lemma_vlc_code(v, 0b10, 2, (3 + off) as i32);
    lemma_vlc_code(v, 0b1100, 4, (0 + off) as i32);
    lemma_vlc_code(v, 0b1101, 4, (6 + off) as i32);
    lemma_vlc_code(v, 0b1110, 4, (1 + off) as i32);
    lemma_vlc_code(v, 0b1111, 4, (5 + off) as i32);
}

/// Every code of the book built from `BITALLOC_9_A`, in canonical order, decodes
/// to its row's symbol plus the book's offset.
#[verifier::rlimit(50)]
#[verifier::spinoff_prover]
proof fn lemma_book_bitalloc_9_a(v: Vlc, off: i16)
    requires
        is_built_from(v, BITALLOC_9_A@, off),
    ensures
        vlc_code_decodes(v, 0b0, 1, (4 + off) as i32),
        vlc_code_decodes(v, 0b100, 3, (3 + off) as i32),
        vlc_code_decodes(v, 0b101, 3, (5 + off) as i32),
        vlc_code_decodes(v, 0b1100, 4, (7 + off) as i32),
        vlc_code_decodes(v, 0b1101, 4, (2 + off) as i32),
        vlc_code_decodes(v, 0b1110, 4, (6 + off) as i32),
        vlc_code_decodes(v, 0b11110, 5, (1 + off) as i32),
        vlc_code_decodes(v, 0b111110, 6, (0 + off) as i32),
        vlc_code_decodes(v, 0b111111, 6, (8 + off) as i32),
{
    let rows = BITALLOC_9_A@;
    assert(rows == seq![(4i16, 1u8), (7i16, 4u8), (2i16, 4u8), (3i16, 3u8), (0i16, 6u8), (8i16, 6u8), (1i16, 5u8), (6i16, 4u8), (5i16, 3u8)]);
    lemma_canonical_below(rows, 7, 256);
    assert(canonical_order(rows) =~= seq![(4i16, 1u8), (3i16, 3u8), (5i16, 3u8), (7i16, 4u8), (2i16, 4u8), (6i16, 4u8), (1i16, 5u8), (0i16, 6u8), (8i16, 6u8)]) by {
        reveal_with_fuel(by_len_below, 8);
        reveal_with_fuel(with_len, 10);
    }
    lemma2_to64();
    let e = v.entries@;
    let co = canonical_order(rows);
    assert(e.len() == 9);
    assert(canon_state(co, 0) == (0nat, 0nat));
    assert(canon_state(co, 1) == (1nat, 1nat)) by {
        assert(co[0] == (4i16, 1u8));
        assert(shifted(0, 0, 1) == 0) by {
            assert(pow2(1) == 2);
        }
    }
    assert(canon_state(co, 2) == (5nat, 3nat)) by {
        assert(co[1] == (3i16, 3u8));
        assert(shifted(1, 1, 3) == 4) by {
            assert(pow2(2) == 4);
        }
    }
    assert(canon_state(co, 3) == (6nat, 3nat)) by {
        assert(co[2] == (5i16, 3u8));
        assert(shifted(5, 3, 3) == 5) by {
            assert(pow2(0) == 1);
        }
    }
    assert(canon_state(co, 4) == (13nat, 4nat)) by {
        assert(co[3] == (7i16, 4u8));
        assert(shifted(6, 3, 4) == 12) by {
            assert(pow2(1) == 2);
        }
    }
    assert(canon_state(co, 5) == (14nat, 4nat)) by {
        assert(co[4] == (2i16, 4u8));
        assert(shifted(13, 4, 4) == 13) by {
            assert(pow2(0) == 1);
        }
    }
    assert(canon_state(co, 6) == (15nat, 4nat)) by {
        assert(co[5] == (6i16, 4u8));
        assert(shifted(14, 4, 4) == 14) by {
            assert(pow2(0) == 1);
        }
    }
    assert(canon_state(co, 7) == (31nat, 5nat)) by {
        assert(co[6] == (1i16, 5u8));
        assert(shifted(15, 4, 5) == 30) by {
            assert(pow2(1) == 2);
        }
    }
    assert(canon_state(co, 8) == (63nat, 6nat)) by {
        assert(co[7] == (0i16, 6u8));
        assert(shifted(31, 5, 6) == 62) by {
            assert(pow2(1) == 2);
        }
    }
    assert(canon_state(co, 9) == (64nat, 6nat)) by {
        assert(co[8] == (8i16, 6u8));
        assert(shifted(63, 6, 6) == 63) by {
            assert(pow2(0) == 1);
        }
    }
    assert(e[0] == VlcEntry { code: 0, length: 1, symbol: 4 });
    assert(e[1] == VlcEntry { code: 4, length: 3, symbol: 3 });
    assert(e[2] == VlcEntry { code: 5, length: 3, symbol: 5 });
    assert(e[3] == VlcEntry { code: 12, length: 4, symbol: 7 });
    assert(e[4] == VlcEntry { code: 13, length: 4, symbol: 2 });
    assert(e[5] == VlcEntry { code: 14, length: 4, symbol: 6 });
    assert(e[6] == VlcEntry { code: 30, length: 5, symbol: 1 });
    assert(e[7] == VlcEntry { code: 62, length: 6, symbol: 0 });
    assert(e[8] == VlcEntry { code: 63, length: 6, symbol: 8 });
    assert(v.max_len >= 6) by {
        assert(rows[4].1 <= v.max_len);
    }
    reveal_with_fuel(vlc_lookup, 10);
    reveal_with_fuel(no_shorter_vlc_code, 7);
    lemma_vlc_code(v, 0b0, 1, (4 + off) as i32);
    lemma_vlc_code(v, 0b100, 3, (3 + off) as i32);
    lemma_vlc_code(v, 0b101, 3, (5 + off) as i32);
    lemma_vlc_code(v, 0b1100, 4, (7 + off) as i32);
    lemma_vlc_code(v, 0b1101, 4, (2 + off) as i32);
    lemma_vlc_code(v, 0b1110, 4, (6 + off) as i32);
    lemma_vlc_code(v, 0b11110, 5, (1 + off) as i32);
    lemma_vlc_code(v, 0b111110, 6, (0 + off) as i32);
    lemma_vlc_code(v, 0b111111, 6, (8 + off) as i32);
}

/// Every code of the book built from `BITALLOC_9_B`, in canonical order, decodes
/// to its row's symbol plus the book's offset.
#[verifier::rlimit(50)]
#[verifier::spinoff_prover]
proof fn lemma_book_bitalloc_9_b(v: Vlc, off: i16)
    requires
        is_built_from(v, BITALLOC_9_B@, off),
    ensures
        vlc_code_decodes(v, 0b00, 2, (5 + off) as i32),
        vlc_code_decodes(v, 0b01, 2, (4 + off) as i32),
        vlc_code_decodes(v, 0b100, 3, (2 + off) as i32),
        vlc_code_decodes(v, 0b101, 3, (6 + off) as i32),
        vlc_code_decodes(v, 0b110, 3, (3 + off) as i32),
        vlc_code_decodes(v, 0b11100, 5, (0 + off) as i32),
        vlc_code_decodes(v, 0b11101, 5, (8 + off) as i32),
        vlc_code_decodes(v, 0b11110, 5, (1 + off) as i32),
        vlc_code_decodes(v, 0b11111, 5, (7 + off) as i32),
{
    let rows = BITALLOC_9_B@;
    assert(rows == seq![(5i16, 2u8), (2i16, 3u8), (6i16, 3u8), (4i16, 2u8), (0i16, 5u8), (8i16, 5u8), (1i16, 5u8), (7i16, 5u8), (3i16, 3u8)]);
    lemma_canonical_below(rows, 6, 256);
    assert(canonical_order(rows) =~= seq![(5i16, 2u8), (4i16, 2u8), (2i16, 3u8), (6i16, 3u8), (3i16, 3u8), (0i16, 5u8), (8i16, 5u8), (1i16, 5u8), (7i16, 5u8)]) by {
        reveal_with_fuel(by_len_below, 7);
        reveal_with_fuel(with_len, 10);
    }
    lemma2_to64();
    let e = v.entries@;
    let co = canonical_order(rows);
    assert(e.len() == 9);
    assert(canon_state(co, 0) == (0nat, 0nat));
    assert(canon_state(co, 1) == (1nat, 2nat)) by {
        assert(co[0] == (5i16, 2u8));
        assert(shifted(0, 0, 2) == 0) by {
            assert(pow2(2) == 4);
        }
    }
    assert(canon_state(co, 2) == (2nat, 2nat)) by {
        assert(co[1] == (4i16, 2u8));
        assert(shifted(1, 2, 2) == 1) by {
            assert(pow2(0) == 1);
        }
    }
    assert(canon_state(co, 3) == (5nat, 3nat)) by {
        assert(co[2] == (2i16, 3u8));
        assert(shifted(2, 2, 3) == 4) by {
            assert(pow2(1) == 2);
        }
    }
    assert(canon_state(co, 4) == (6nat, 3nat)) by {
        assert(co[3] == (6i16, 3u8));
        assert(shifted(5, 3, 3) == 5) by {
            assert(pow2(0) == 1);
        }
    }
    assert(canon_state(co, 5) == (7nat, 3nat)) by {
        assert(co[4] == (3i16, 3u8));
        assert(shifted(6, 3, 3) == 6) by {
            assert(pow2(0) == 1);
        }
    }
    assert(canon_state(co, 6) == (29nat, 5nat)) by {
        assert(co[5] == (0i16, 5u8));
        assert(shifted(7, 3, 5) == 28) by {
            assert(pow2(2) == 4);
        }
    }
    assert(canon_state(co, 7) == (30nat, 5nat)) by {
        assert(co[6] == (8i16, 5u8));
        assert(shifted(29, 5, 5) == 29) by {
            assert(pow2(0) == 1);
        }
    }
    assert(canon_state(co, 8) == (31nat, 5nat)) by {
        assert(co[7] == (1i16, 5u8));
        assert(shifted(30, 5, 5) == 30) by {
            assert(pow2(0) == 1);
        }
    }
    assert(canon_state(co, 9) == (32nat, 5nat)) by {
        assert(co[8] == (7i16, 5u8));
        assert(shifted(31, 5, 5) == 31) by {
            assert(pow2(0) == 1);
        }
    }
    assert(e[0] == VlcEntry { code: 0, length: 2, symbol: 5 });
    assert(e[1] == VlcEntry { code: 1, length: 2, symbol: 4 });
    assert(e[2] == VlcEntry { code: 4, length: 3, symbol: 2 });
    assert(e[3] == VlcEntry { code: 5, length: 3, symbol: 6 });
    assert(e[4] == VlcEntry { code: 6, length: 3, symbol: 3 });
    assert(e[5] == VlcEntry { code: 28, length: 5, symbol: 0 });
    assert(e[6] == VlcEntry { code: 29, length: 5, symbol: 8 });
    assert(e[7] == VlcEntry { code: 30, length: 5, symbol: 1 });
    assert(e[8] == VlcEntry { code: 31, length: 5, symbol: 7 });
    assert(v.max_len >= 5) by {
        assert(rows[4].1 <= v.max_len);
    }
    reveal_with_fuel(vlc_lookup, 10);
    reveal_with_fuel(no_shorter_vlc_code, 6);
    lemma_vlc_code(v, 0b00, 2, (5 + off) as i32);
    lemma_vlc_code(v, 0b01, 2, (4 + off) as i32);
    lemma_vlc_code(v, 0b100, 3, (2 + off) as i32);
    lemma_vlc_code(v, 0b101, 3, (6 + off) as i32);
    lemma_vlc_code(v, 0b110, 3, (3 + off) as i32);
    lemma_vlc_code(v, 0b11100, 5, (0 + off) as i32);
    lemma_vlc_code(v, 0b11101, 5, (8 + off) as i32);
    lemma_vlc_code(v, 0b11110, 5, (1 + off) as i32);
    lemma_vlc_code(v, 0b11111, 5, (7 + off) as i32);
}

/// Every code of the book built from `BITALLOC_9_C`, in canonical order, decodes
/// to its row's symbol plus the book's offset.
#[verifier::rlimit(50)]
#[verifier::spinoff_prover]
proof fn lemma_book_bitalloc_9_c(v: Vlc, off: i16)
    requires
        is_built_from(v, BITALLOC_9_C@, off),
    ensures
        vlc_code_decodes(v, 0b00, 2, (5 + off) as i32),
        vlc_code_decodes(v, 0b01, 2, (4 + off) as i32),
        vlc_code_decodes(v, 0b100, 3, (2 + off) as i32),
        vlc_code_decodes(v, 0b101, 3, (6 + off) as i32),
        vlc_code_decodes(v, 0b110, 3, (3 + off) as i32),
        vlc_code_decodes(v, 0b1110, 4, (7 + off) as i32),
        vlc_code_decodes(v, 0b11110, 5, (1 + off) as i32),
        vlc_code_decodes(v, 0b111110, 6, (0 + off) as i32),
        vlc_code_decodes(v, 0b111111, 6, (8 + off) as i32),
{
    let rows = BITALLOC_9_C@;
    assert(rows == seq![(5i16, 2u8), (2i16, 3u8), (7i16, 4u8), (0i16, 6u8), (8i16, 6u8), (1i16, 5u8), (4i16, 2u8), (6i16, 3u8), (3i16, 3u8)]);
    lemma_canonical_below(rows, 7, 256);
    assert(canonical_order(rows) =~= seq![(5i16, 2u8), (4i16, 2u8), (2i16, 3u8), (6i16, 3u8), (3i16, 3u8), (7i16, 4u8), (1i16, 5u8), (0i16, 6u8), (8i16, 6u8)]) by {
        reveal_with_fuel(by_len_below, 8);
        reveal_with_fuel(with_len, 10);
    }
    lemma2_to64();
    let e = v.entries@;
    let co = canonical_order(rows);
    assert(e.len() == 9);
    assert(canon_state(co, 0) == (0nat, 0nat));
    assert(canon_state(co, 1) == (1nat, 2nat)) by {
        assert(co[0] == (5i16, 2u8));
        assert(shifted(0, 0, 2) == 0) by {
            assert(pow2(2) == 4);
        }
    }
    assert(canon_state(co, 2) == (2nat, 2nat)) by {
        assert(co[1] == (4i16, 2u8));
        assert(shifted(1, 2, 2) == 1) by {
            assert(pow2(0) == 1);
        }
    }
    assert(canon_state(co, 3) == (5nat, 3nat)) by {
        assert(co[2] == (2i16, 3u8));
        assert(shifted(2, 2, 3) == 4) by {
            assert(pow2(1) == 2);
        }
    }
    assert(canon_state(co, 4) == (6nat, 3nat)) by {
        assert(co[3] == (6i16, 3u8));
        assert(shifted(5, 3, 3) == 5) by {
            assert(pow2(0) == 1);
        }
    }
    assert(canon_state(co, 5) == (7nat, 3nat)) by {
        assert(co[4] == (3i16, 3u8));
        assert(shifted(6, 3, 3) == 6) by {
            assert(pow2(0) == 1);
        }
    }
    assert(canon_state(co, 6) == (15nat, 4nat)) by {
        assert(co[5] == (7i16, 4u8));
        assert(shifted(7, 3, 4) == 14) by {
            assert(pow2(1) == 2);
        }
    }
    assert(canon_state(co, 7) == (31nat, 5nat)) by {
        assert(co[6] == (1i16, 5u8));
        assert(shifted(15, 4, 5) == 30) by {
            assert(pow2(1) == 2);
        }
    }
    assert(canon_state(co, 8) == (63nat, 6nat)) by {
        assert(co[7] == (0i16, 6u8));
        assert(shifted(31, 5, 6) == 62) by {
            assert(pow2(1) == 2);
        }
    }
    assert(canon_state(co, 9) == (64nat, 6nat)) by {
        assert(co[8] == (8i16, 6u8));
        assert(shifted(63, 6, 6) == 63) by {
            assert(pow2(0) == 1);
        }
    }
    assert(e[0] == VlcEntry { code: 0, length: 2, symbol: 5 });
    assert(e[1] == VlcEntry { code: 1, length: 2, symbol: 4 });
    assert(e[2] == VlcEntry { code: 4, length: 3, symbol: 2 });
    assert(e[3] == VlcEntry { code: 5, length: 3, symbol: 6 });
    assert(e[4] == VlcEntry { code: 6, length: 3, symbol: 3 });
    assert(e[5] == VlcEntry { code: 14, length: 4, symbol: 7 });
    assert(e[6] == VlcEntry { code: 30, length: 5, symbol: 1 });
    assert(e[7] == VlcEntry { code: 62, length: 6, symbol: 0 });
    assert(e[8] == VlcEntry { code: 63, length: 6, symbol: 8 });
    assert(v.max_len >= 6) by {
        assert(rows[3].1 <= v.max_len);
    }
    reveal_with_fuel(vlc_lookup, 10);
    reveal_with_fuel(no_shorter_vlc_code, 7);
    lemma_vlc_code(v, 0b00, 2, (5 + off) as i32);
    lemma_vlc_code(v, 0b01, 2, (4 + off) as i32);
    lemma_vlc_code(v, 0b100, 3, (2 + off) as i32);
    lemma_vlc_code(v, 0b101, 3, (6 + off) as i32);
    lemma_vlc_code(v, 0b110, 3, (3 + off) as i32);
    lemma_vlc_code(v, 0b1110, 4, (7 + off) as i32);
    lemma_vlc_code(v, 0b11110, 5, (1 + off) as i32);
    lemma_vlc_code(v, 0b111110, 6, (0 + off) as i32);
    lemma_vlc_code(v, 0b111111, 6, (8 + off) as i32);
}

/// Every code of the book built from `BITALLOC_13_A`, in canonical order, decodes
/// to its row's symbol plus the book's offset.
#[verifier::rlimit(50)]
#[verifier::spinoff_prover]
proof fn lemma_book_bitalloc_13_a(v: Vlc, off: i16)
    requires
        is_built_from(v, BITALLOC_13_A@, off),
    ensures
        vlc_code_decodes(v, 0b0, 1, (6 + off) as i32),
        vlc_code_decodes(v, 0b100, 3, (7 + off) as i32),
        vlc_code_decodes(v, 0b1010, 4, (9 + off) as i32),
        vlc_code_decodes(v, 0b1011, 4, (4 + off) as i32),
        vlc_code_decodes(v, 0b1100, 4, (8 + off) as i32),
        vlc_code_decodes(v, 0b1101, 4, (5 + off) as i32),
        vlc_code_decodes(v, 0b11100, 5, (10 + off) as i32),
        vlc_code_decodes(v, 0b11101, 5, (3 + off) as i32),
        vlc_code_decodes(v, 0b111100, 6, (1 + off) as i32),
        vlc_code_decodes(v, 0b111101, 6, (11 + off) as i32),
        vlc_code_decodes(v, 0b111110, 6, (2 + off) as i32),
        vlc_code_decodes(v, 0b1111110, 7, (0 + off) as i32),
        vlc_code_decodes(v, 0b1111111, 7, (12 + off) as i32),
{
    let rows = BITALLOC_13_A@;
    assert(rows == seq![(6i16, 1u8), (7i16, 3u8), (9i16, 4u8), (10i16, 5u8), (1i16, 6u8), (11i16, 6u8), (4i16, 4u8), (8i16, 4u8), (0i16, 7u8), (12i16, 7u8), (2i16, 6u8), (3i16, 5u8), (5i16, 4u8)]);
    lemma_canonical_below(rows, 8, 256);
    assert(canonical_order(rows) =~= seq![(6i16, 1u8), (7i16, 3u8), (9i16, 4u8), (4i16, 4u8), (8i16, 4u8), (5i16, 4u8), (10i16, 5u8), (3i16, 5u8), (1i16, 6u8), (11i16, 6u8), (2i16, 6u8), (0i16, 7u8), (12i16, 7u8)]) by {
        reveal_with_fuel(by_len_below, 9);
        reveal_with_fuel(with_len, 14);
    }
    lemma2_to64();
    let e = v.entries@;
    let co = canonical_order(rows);
    assert(e.len() == 13);
    assert(canon_state(co, 0) == (0nat, 0nat));
    assert(canon_state(co, 1) == (1nat, 1nat)) by {
        assert(co[0] == (6i16, 1u8));
        assert(shifted(0, 0, 1) == 0) by {
            assert(pow2(1) == 2);
        }
    }
    assert(canon_state(co, 2) == (5nat, 3nat)) by {
        assert(co[1] == (7i16, 3u8));
        assert(shifted(1, 1, 3) == 4) by {
            assert(pow2(2) == 4);
        }
    }
    assert(canon_state(co, 3) == (11nat, 4nat)) by {
        assert(co[2] == (9i16, 4u8));
        assert(shifted(5, 3, 4) == 10) by {
            assert(pow2(1) == 2);
        }
    }
    assert(canon_state(co, 4) == (12nat, 4nat)) by {
        assert(co[3] == (4i16, 4u8));
        assert(shifted(11, 4, 4) == 11) by {
            assert(pow2(0) == 1);
        }
    }
    assert(canon_state(co, 5) == (13nat, 4nat)) by {
        assert(co[4] == (8i16, 4u8));
        assert(shifted(12, 4, 4) == 12) by {
            assert(pow2(0) == 1);
        }
    }
    assert(canon_state(co, 6) == (14nat, 4nat)) by {
        assert(co[5] == (5i16, 4u8));
        assert(shifted(13, 4, 4) == 13) by {
            assert(pow2(0) == 1);
        }
    }
    assert(canon_state(co, 7) == (29nat, 5nat)) by {
        assert(co[6] == (10i16, 5u8));
        assert(shifted(14, 4, 5) == 28) by {
            assert(pow2(1) == 2);
        }
    }
    assert(canon_state(co, 8) == (30nat, 5nat)) by {
        assert(co[7] == (3i16, 5u8));
        assert(shifted(29, 5, 5) == 29) by {
            assert(pow2(0) == 1);
        }
    }
    assert(canon_state(co, 9) == (61nat, 6nat)) by {
        assert(co[8] == (1i16, 6u8));
        assert(shifted(30, 5, 6) == 60) by {
            assert(pow2(1) == 2);
        }
    }
    assert(canon_state(co, 10) == (62nat, 6nat)) by {
        assert(co[9] == (11i16, 6u8));
        assert(shifted(61, 6, 6) == 61) by {
            assert(pow2(0) == 1);
        }
    }
    assert(canon_state(co, 11) == (63nat, 6nat)) by {
        assert(co[10] == (2i16, 6u8));
        assert(shifted(62, 6, 6) == 62) by {
            assert(pow2(0) == 1);
        }
    }
    assert(canon_state(co, 12) == (127nat, 7nat)) by {
        assert(co[11] == (0i16, 7u8));
        assert(shifted(63, 6, 7) == 126) by {
            assert(pow2(1) == 2);
        }
    }
    assert(canon_state(co, 13) == (128nat, 7nat)) by {
        assert(co[12] == (12i16, 7u8));
        assert(shifted(127, 7, 7) == 127) by {
            assert(pow2(0) == 1);
        }
    }
    assert(e[0] == VlcEntry { code: 0, length: 1, symbol: 6 });
    assert(e[1] == VlcEntry { code: 4, length: 3, symbol: 7 });
    assert(e[2] == VlcEntry { code: 10, length: 4, symbol: 9 });
    assert(e[3] == VlcEntry { code: 11, length: 4, symbol: 4 });
    assert(e[4] == VlcEntry { code: 12, length: 4, symbol: 8 });
    assert(e[5] == VlcEntry { code: 13, length: 4, symbol: 5 });
    assert(e[6] == VlcEntry { code: 28, length: 5, symbol: 10 });
    assert(e[7] == VlcEntry { code: 29, length: 5, symbol: 3 });
    assert(e[8] == VlcEntry { code: 60, length: 6, symbol: 1 });
    assert(e[9] == VlcEntry { code: 61, length: 6, symbol: 11 });
    assert(e[10] == VlcEntry { code: 62, length: 6, symbol: 2 });
    assert(e[11] == VlcEntry { code: 126, length: 7, symbol: 0 });
    assert(e[12] == VlcEntry { code: 127, length: 7, symbol: 12 });
    assert(v.max_len >= 7) by {
        assert(rows[8].1 <= v.max_len);
    }
    reveal_with_fuel(vlc_lookup, 14);
    reveal_with_fuel(no_shorter_vlc_code, 8);
    lemma_vlc_code(v, 0b0, 1, (6 + off) as i32);
    lemma_vlc_code(v, 0b100, 3, (7 + off) as i32);
    lemma_vlc_code(v, 0b1010, 4, (9 + off) as i32);
    lemma_vlc_code(v, 0b1011, 4, (4 + off) as i32);
    lemma_vlc_code(v, 0b1100, 4, (8 + off) as i32);
    lemma_vlc_code(v, 0b1101, 4, (5 + off) as i32);
    lemma_vlc_code(v, 0b11100, 5, (10 + off) as i32);
    lemma_vlc_code(v, 0b11101, 5, (3 + off) as i32);
    lemma_vlc_code(v, 0b111100, 6, (1 + off) as i32);
    lemma_vlc_code(v, 0b111101, 6, (11 + off) as i32);
    lemma_vlc_code(v, 0b111110, 6, (2 + off) as i32);
    lemma_vlc_code(v, 0b1111110, 7, (0 + off) as i32);
    lemma_vlc_code(v, 0b1111111, 7, (12 + off) as i32);
}

/// Every code of the book built from `BITALLOC_13_B`, in canonical order, decodes
/// to its row's symbol plus the book's offset.
#[verifier::rlimit(50)]
#[verifier::spinoff_prover]
proof fn lemma_book_bitalloc_13_b(v: Vlc, off: i16)
    requires
        is_built_from(v, BITALLOC_13_B@, off),
    ensures
        vlc_code_decodes(v, 0b00, 2, (6 + off) as i32),
        vlc_code_decodes(v, 0b010, 3, (8 + off) as i32),
        vlc_code_decodes(v, 0b011, 3, (5 + off) as i32),
        vlc_code_decodes(v, 0b100, 3, (7 + off) as i32),
        vlc_code_decodes(v, 0b1010, 4, (10 + off) as i32),
        vlc_code_decodes(v, 0b1011, 4, (3 + off) as i32),
        vlc_code_decodes(v, 0b1100, 4, (9 + off) as i32),
        vlc_code_decodes(v, 0b1101, 4, (4 + off) as i32),
        vlc_code_decodes(v, 0b11100, 5, (1 + off) as i32),
        vlc_code_decodes(v, 0b11101, 5, (11 + off) as i32),
        vlc_code_decodes(v, 0b11110, 5, (2 + off) as i32),
        vlc_code_decodes(v, 0b111110, 6, (0 + off) as i32),
        vlc_code_decodes(v, 0b111111, 6, (12 + off) as i32),
{
    let rows = BITALLOC_13_B@;
    assert(rows == seq![(6i16, 2u8), (8i16, 3u8), (10i16, 4u8), (3i16, 4u8), (1i16, 5u8), (11i16, 5u8), (9i16, 4u8), (5i16, 3u8), (7i16, 3u8), (0i16, 6u8), (12i16, 6u8), (2i16, 5u8), (4i16, 4u8)]);
    lemma_canonical_below(rows, 7, 256);
    assert(canonical_order(rows) =~= seq![(6i16, 2u8), (8i16, 3u8), (5i16, 3u8), (7i16, 3u8), (10i16, 4u8), (3i16, 4u8), (9i16, 4u8), (4i16, 4u8), (1i16, 5u8), (11i16, 5u8), (2i16, 5u8), (0i16, 6u8), (12i16, 6u8)]) by {
        reveal_with_fuel(by_len_below, 8);
        reveal_with_fuel(with_len, 14);
    }
    lemma2_to64();
    let e = v.entries@;
    let co = canonical_order(rows);
    assert(e.len() == 13);
    assert(canon_state(co, 0) == (0nat, 0nat));
    assert(canon_state(co, 1) == (1nat, 2nat)) by {
        assert(co[0] == (6i16, 2u8));
        assert(shifted(0, 0, 2) == 0) by {
            assert(pow2(2) == 4);
        }
    }
    assert(canon_state(co, 2) == (3nat, 3nat)) by {
        assert(co[1] == (8i16, 3u8));
        assert(shifted(1, 2, 3) == 2) by {
            assert(pow2(1) == 2);
        }
    }
    assert(canon_state(co, 3) == (4nat, 3nat)) by {
        assert(co[2] == (5i16, 3u8));
        assert(shifted(3, 3, 3) == 3) by {
            assert(pow2(0) == 1);
        }
    }
    assert(canon_state(co, 4) == (5nat, 3nat)) by {
        assert(co[3] == (7i16, 3u8));
        assert(shifted(4, 3, 3) == 4) by {
            assert(pow2(0) == 1);
        }
    }
    assert(canon_state(co, 5) == (11nat, 4nat)) by {
        assert(co[4] == (10i16, 4u8));
        assert(shifted(5, 3, 4) == 10) by {
            assert(pow2(1) == 2);
        }
    }
    assert(canon_state(co, 6) == (12nat, 4nat)) by {
        assert(co[5] == (3i16, 4u8));
        assert(shifted(11, 4, 4) == 11) by {
            assert(pow2(0) == 1);
        }
    }
    assert(canon_state(co, 7) == (13nat, 4nat)) by {
        assert(co[6] == (9i16, 4u8));
        assert(shifted(12, 4, 4) == 12) by {
            assert(pow2(0) == 1);
        }
    }
    assert(canon_state(co, 8) == (14nat, 4nat)) by {
        assert(co[7] == (4i16, 4u8));
        assert(shifted(13, 4, 4) == 13) by {
            assert(pow2(0) == 1);
        }
    }
    assert(canon_state(co, 9) == (29nat, 5nat)) by {
        assert(co[8] == (1i16, 5u8));
        assert(shifted(14, 4, 5) == 28) by {
            assert(pow2(1) == 2);
        }
    }
    assert(canon_state(co, 10) == (30nat, 5nat)) by {
        assert(co[9] == (11i16, 5u8));
        assert(shifted(29, 5, 5) == 29) by {
            assert(pow2(0) == 1);
        }
    }
    assert(canon_state(co, 11) == (31nat, 5nat)) by {
        assert(co[10] == (2i16, 5u8));
        assert(shifted(30, 5, 5) == 30) by {
            assert(pow2(0) == 1);
        }
    }
    assert(canon_state(co, 12) == (63nat, 6nat)) by {
        assert(co[11] == (0i16, 6u8));
        assert(shifted(31, 5, 6) == 62) by {
            assert(pow2(1) == 2);
        }
    }
    assert(canon_state(co, 13) == (64nat, 6nat)) by {
        assert(co[12] == (12i16, 6u8));
        assert(shifted(63, 6, 6) == 63) by {
            assert(pow2(0) == 1);
        }
    }
    assert(e[0] == VlcEntry { code: 0, length: 2, symbol: 6 });
    assert(e[1] == VlcEntry { code: 2, length: 3, symbol: 8 });
    assert(e[2] == VlcEntry { code: 3, length: 3, symbol: 5 });
    assert(e[3] == VlcEntry { code: 4, length: 3, symbol: 7 });
    assert(e[4] == VlcEntry { code: 10, length: 4, symbol: 10 });
    assert(e[5] == VlcEntry { code: 11, length: 4, symbol: 3 });
    assert(e[6] == VlcEntry { code: 12, length: 4, symbol: 9 });
    assert(e[7] == VlcEntry { code: 13, length: 4, symbol: 4 });
    assert(e[8] == VlcEntry { code: 28, length: 5, symbol: 1 });
    assert(e[9] == VlcEntry { code: 29, length: 5, symbol: 11 });
    assert(e[10] == VlcEntry { code: 30, length: 5, symbol: 2 });
    assert(e[11] == VlcEntry { code: 62, length: 6, symbol: 0 });
    assert(e[12] == VlcEntry { code: 63, length: 6, symbol: 12 });
    assert(v.max_len >= 6) by {
        assert(rows[9].1 <= v.max_len);
    }
    reveal_with_fuel(vlc_lookup, 14);
    reveal_with_fuel(no_shorter_vlc_code, 7);
    lemma_vlc_code(v, 0b00, 2, (6 + off) as i32);
    lemma_vlc_code(v, 0b010, 3, (8 + off) as i32);
    lemma_vlc_code(v, 0b011, 3, (5 + off) as i32);
    lemma_vlc_code(v, 0b100, 3, (7 + off) as i32);
    lemma_vlc_code(v, 0b1010, 4, (10 + off) as i32);
    lemma_vlc_code(v, 0b1011, 4, (3 + off) as i32);
    lemma_vlc_code(v, 0b1100, 4, (9 + off) as i32);
    lemma_vlc_code(v, 0b1101, 4, (4 + off) as i32);
    lemma_vlc_code(v, 0b11100, 5, (1 + off) as i32);
    lemma_vlc_code(v, 0b11101, 5, (11 + off) as i32);
    lemma_vlc_code(v, 0b11110, 5, (2 + off) as i32);
    lemma_vlc_code(v, 0b111110, 6, (0 + off) as i32);
    lemma_vlc_code(v, 0b111111, 6, (12 + off) as i32);
}

/// Every code of the book built from `BITALLOC_13_C`, in canonical order, decodes
/// to its row's symbol plus the book's offset.
#[verifier::rlimit(50)]
#[verifier::spinoff_prover]
proof fn lemma_book_bitalloc_13_c(v: Vlc, off: i16)
    requires
        is_built_from(v, BITALLOC_13_C@, off),
    ensures
        vlc_code_decodes(v, 0b000, 3, (4 + off) as i32),
        vlc_code_decodes(v, 0b001, 3, (8 + off) as i32),
        vlc_code_decodes(v, 0b010, 3, (5 + off) as i32),
        vlc_code_decodes(v, 0b011, 3, (7 + off) as i32),
        vlc_code_decodes(v, 0b100, 3, (6 + off) as i32),
        vlc_code_decodes(v, 0b1010, 4, (2 + off) as i32),
        vlc_code_decodes(v, 0b1011, 4, (10 + off) as i32),
        vlc_code_decodes(v, 0b1100, 4, (3 + off) as i32),
        vlc_code_decodes(v, 0b1101, 4, (9 + off) as i32),
        vlc_code_decodes(v, 0b11100, 5, (0 + off) as i32),
        vlc_code_decodes(v, 0b11101, 5, (12 + off) as i32),
        vlc_code_decodes(v, 0b11110, 5, (1 + off) as i32),
        vlc_code_decodes(v, 0b11111, 5, (11 + off) as i32),
{
    let rows = BITALLOC_13_C@;
    assert(rows == seq![(4i16, 3u8), (0i16, 5u8), (12i16, 5u8), (2i16, 4u8), (8i16, 3u8), (5i16, 3u8), (7i16, 3u8), (6i16, 3u8), (10i16, 4u8), (1i16, 5u8), (11i16, 5u8), (3i16, 4u8), (9i16, 4u8)]);
    lemma_canonical_below(rows, 6, 256);
    assert(canonical_order(rows) =~= seq![(4i16, 3u8), (8i16, 3u8), (5i16, 3u8), (7i16, 3u8), (6i16, 3u8), (2i16, 4u8), (10i16, 4u8), (3i16, 4u8), (9i16, 4u8), (0i16, 5u8), (12i16, 5u8), (1i16, 5u8), (11i16, 5u8)]) by {
        reveal_with_fuel(by_len_below, 7);
        reveal_with_fuel(with_len, 14);
    }
    lemma2_to64();
    let e = v.entries@;
    let co = canonical_order(rows);
    assert(e.len() == 13);
    assert(canon_state(co, 0) == (0nat, 0nat));
    assert(canon_state(co, 1) == (1nat, 3nat)) by {
        assert(co[0] == (4i16, 3u8));
        assert(shifted(0, 0, 3) == 0) by {
            assert(pow2(3) == 8);
        }
    }
    assert(canon_state(co, 2) == (2nat, 3nat)) by {
        assert(co[1] == (8i16, 3u8));
        assert(shifted(1, 3, 3) == 1) by {
            assert(pow2(0) == 1);
        }
    }
    assert(canon_state(co, 3) == (3nat, 3nat)) by {
        assert(co[2] == (5i16, 3u8));
        assert(shifted(2, 3, 3) == 2) by {
            assert(pow2(0) == 1);
        }
    }
    assert(canon_state(co, 4) == (4nat, 3nat)) by {
        assert(co[3] == (7i16, 3u8));
        assert(shifted(3, 3, 3) == 3) by {
            assert(pow2(0) == 1);
        }
    }
    assert(canon_state(co, 5) == (5nat, 3nat)) by {
        assert(co[4] == (6i16, 3u8));
        assert(shifted(4, 3, 3) == 4) by {
            assert(pow2(0) == 1);
        }
    }
    assert(canon_state(co, 6) == (11nat, 4nat)) by {
        assert(co[5] == (2i16, 4u8));
        assert(shifted(5, 3, 4) == 10) by {
            assert(pow2(1) == 2);
        }
    }
    assert(canon_state(co, 7) == (12nat, 4nat)) by {
        assert(co[6] == (10i16, 4u8));
        assert(shifted(11, 4, 4) == 11) by {
            assert(pow2(0) == 1);
        }
    }
    assert(canon_state(co, 8) == (13nat, 4nat)) by {
        assert(co[7] == (3i16, 4u8));
        assert(shifted(12, 4, 4) == 12) by {
            assert(pow2(0) == 1);
        }
    }
    assert(canon_state(co, 9) == (14nat, 4nat)) by {
        assert(co[8] == (9i16, 4u8));
        assert(shifted(13, 4, 4) == 13) by {
            assert(pow2(0) == 1);
        }
    }
    assert(canon_state(co, 10) == (29nat, 5nat)) by {
        assert(co[9] == (0i16, 5u8));
        assert(shifted(14, 4, 5) == 28) by {
            assert(pow2(1) == 2);
        }
    }
    assert(canon_state(co, 11) == (30nat, 5nat)) by {
        assert(co[10] == (12i16, 5u8));
        assert(shifted(29, 5, 5) == 29) by {
            assert(pow2(0) == 1);
        }
    }
    assert(canon_state(co, 12) == (31nat, 5nat)) by {
        assert(co[11] == (1i16, 5u8));
        assert(shifted(30, 5, 5) == 30) by {
            assert(pow2(0) == 1);
        }
    }
    assert(canon_state(co, 13) == (32nat, 5nat)) by {
        assert(co[12] == (11i16, 5u8));
        assert(shifted(31, 5, 5) == 31) by {
            assert(pow2(0) == 1);
        }
    }
    assert(e[0] == VlcEntry { code: 0, length: 3, symbol: 4 });
    assert(e[1] == VlcEntry { code: 1, length: 3, symbol: 8 });
    assert(e[2] == VlcEntry { code: 2, length: 3, symbol: 5 });
    assert(e[3] == VlcEntry { code: 3, length: 3, symbol: 7 });
    assert(e[4] == VlcEntry { code: 4, length: 3, symbol: 6 });
    assert(e[5] == VlcEntry { code: 10, length: 4, symbol: 2 });
    assert(e[6] == VlcEntry { code: 11, length: 4, symbol: 10 });
    assert(e[7] == VlcEntry { code: 12, length: 4, symbol: 3 });
    assert(e[8] == VlcEntry { code: 13, length: 4, symbol: 9 });
    assert(e[9] == VlcEntry { code: 28, length: 5, symbol: 0 });
    assert(e[10] == VlcEntry { code: 29, length: 5, symbol: 12 });
    assert(e[11] == VlcEntry { code: 30, length: 5, symbol: 1 });
    assert(e[12] == VlcEntry { code: 31, length: 5, symbol: 11 });
    assert(v.max_len >= 5) by {
        assert(rows[1].1 <= v.max_len);
    }
    reveal_with_fuel(vlc_lookup, 14);
    reveal_with_fuel(no_shorter_vlc_code, 6);
    lemma_vlc_code(v, 0b000, 3, (4 + off) as i32);
    lemma_vlc_code(v, 0b001, 3, (8 + off) as i32);
    lemma_vlc_code(v, 0b010, 3, (5 + off) as i32);
    lemma_vlc_code(v, 0b011, 3, (7 + off) as i32);
    lemma_vlc_code(v, 0b100, 3, (6 + off) as i32);
    lemma_vlc_code(v, 0b1010, 4, (2 + off) as i32);
    lemma_vlc_code(v, 0b1011, 4, (10 + off) as i32);
    lemma_vlc_code(v, 0b1100, 4, (3 + off) as i32);
    lemma_vlc_code(v, 0b1101, 4, (9 + off) as i32);
    lemma_vlc_code(v, 0b11100, 5, (0 + off) as i32);
    lemma_vlc_code(v, 0b11101, 5, (12 + off) as i32);
    lemma_vlc_code(v, 0b11110, 5, (1 + off) as i32);
    lemma_vlc_code(v, 0b11111, 5, (11 + off) as i32);
}

/// Every code of the book built from the one row `(0, 1)`, in canonical order, decodes
/// to its row's symbol plus the book's offset.
#[verifier::rlimit(50)]
#[verifier::spinoff_prover]
proof fn lemma_book_fallback(v: Vlc, off: i16)
    requires
        is_built_from(v, seq![(0i16, 1u8)], off),
    ensures
        vlc_code_decodes(v, 0b0, 1, (0 + off) as i32),
{
    let rows = seq![(0i16, 1u8)];
    assert(rows == seq![(0i16, 1u8)]);
    lemma_canonical_below(rows, 2, 256);
    assert(canonical_order(rows) =~= seq![(0i16, 1u8)]) by {
        reveal_with_fuel(by_len_below, 3);
        reveal_with_fuel(with_len, 2);
    }
    lemma2_to64();
    let e = v.entries@;
    let co = canonical_order(rows);
    assert(e.len() == 1);
    assert(canon_state(co, 0) == (0nat, 0nat));
    assert(canon_state(co, 1) == (1nat, 1nat)) by {
        assert(co[0] == (0i16, 1u8));
        assert(shifted(0, 0, 1) == 0) by {
            assert(pow2(1) == 2);
        }
    }
    assert(e[0] == VlcEntry { code: 0, length: 1, symbol: 0 });
    assert(v.max_len >= 1) by {
        assert(rows[0].1 <= v.max_len);
    }
    reveal_with_fuel(vlc_lookup, 2);
    reveal_with_fuel(no_shorter_vlc_code, 2);
    lemma_vlc_code(v, 0b0, 1, (0 + off) as i32);
}

/// The bit-allocation books, code by code: each code, assigned in
/// canonical order, decodes to its row's symbol plus the size class's
/// offset. Class 0 (any variant): 0 -> 0, 10 -> 1, 11 -> -1. A class
/// from 5 on, or a variant past 2 of classes 1 to 4, gives the one-code
/// book: 0 -> 0. The other books are listed below, one clause each.
pub proof fn lemma_bitalloc_codes(class: usize, sub: usize, v: Vlc)
    requires
        class < 10,
        is_built_from(v, bitalloc_rows(class, sub).0, bitalloc_rows(class, sub).1),
    ensures
        class == 0 ==> (
            vlc_code_decodes(v, 0b0, 1, 0i32) &&
            vlc_code_decodes(v, 0b10, 2, 1i32) &&
            vlc_code_decodes(v, 0b11, 2, -1i32)
        ),
        class == 1 && sub == 0 ==> (
            vlc_code_decodes(v, 0b0, 1, 0i32) &&
            vlc_code_decodes(v, 0b10, 2, 1i32) &&
            vlc_code_decodes(v, 0b110, 3, -1i32) &&
            vlc_code_decodes(v, 0b1110, 4, 2i32) &&
            vlc_code_decodes(v, 0b1111, 4, -2i32)
        ),
        class == 1 && sub == 1 ==> (
            vlc_code_decodes(v, 0b00, 2, 1i32) &&
            vlc_code_decodes(v, 0b01, 2, -1i32) &&
            vlc_code_decodes(v, 0b10, 2, 0i32) &&
            vlc_code_decodes(v, 0b110, 3, 2i32) &&
            vlc_code_decodes(v, 0b111, 3, -2i32)
        ),
        class == 1 && sub == 2 ==> (
            vlc_code_decodes(v, 0b0, 1, 0i32) &&
            vlc_code_decodes(v, 0b100, 3, 1i32) &&
            vlc_code_decodes(v, 0b101, 3, -1i32) &&
            vlc_code_decodes(v, 0b110, 3, 2i32) &&
            vlc_code_decodes(v, 0b111, 3, -2i32)
        ),
        class == 2 && sub == 0 ==> (
            vlc_code_decodes(v, 0b0, 1, 0i32) &&
            vlc_code_decodes(v, 0b100, 3, 2i32) &&
            vlc_code_decodes(v, 0b101, 3, -1i32) &&
            vlc_code_decodes(v, 0b110, 3, 1i32) &&
            vlc_code_decodes(v, 0b1110, 4, -2i32) &&
            vlc_code_decodes(v, 0b11110, 5, -3i32) &&
            vlc_code_decodes(v, 0b11111, 5, 3i32)
        ),
        class == 2 && sub == 1 ==> (
            vlc_code_decodes(v, 0b00, 2, -1i32) &&
            vlc_code_decodes(v, 0b01, 2, 1i32) &&
            vlc_code_decodes(v, 0b10, 2, 0i32) &&
            vlc_code_decodes(v, 0b110, 3, 2i32) &&
            vlc_code_decodes(v, 0b1110, 4, -2i32) &&
            vlc_code_decodes(v, 0b11110, 5, -3i32) &&
            vlc_code_decodes(v, 0b11111, 5, 3i32)
        ),
        class == 2 && sub == 2 ==> (
            vlc_code_decodes(v, 0b00, 2, -1i32) &&
            vlc_code_decodes(v, 0b01, 2, 1i32) &&
            vlc_code_decodes(v, 0b10, 2, 0i32) &&
            vlc_code_decodes(v, 0b1100, 4, -3i32) &&
            vlc_code_decodes(v, 0b1101, 4, 3i32) &&
            vlc_code_decodes(v, 0b1110, 4, -2i32) &&
            vlc_code_decodes(v, 0b1111, 4, 2i32)
        ),
        class == 3 && sub == 0 ==> (
            vlc_code_decodes(v, 0b0, 1, 0i32) &&
            vlc_code_decodes(v, 0b100, 3, -1i32) &&
            vlc_code_decodes(v, 0b101, 3, 1i32) &&
            vlc_code_decodes(v, 0b1100, 4, 3i32) &&
            vlc_code_decodes(v, 0b1101, 4, -2i32) &&
            vlc_code_decodes(v, 0b1110, 4, 2i32) &&
            vlc_code_decodes(v, 0b11110, 5, -3i32) &&
            vlc_code_decodes(v, 0b111110, 6, -4i32) &&
            vlc_code_decodes(v, 0b111111, 6, 4i32)
        ),
        class == 3 && sub == 1 ==> (
            vlc_code_decodes(v, 0b00, 2, 1i32) &&
            vlc_code_decodes(v, 0b01, 2, 0i32) &&
            vlc_code_decodes(v, 0b100, 3, -2i32) &&
            vlc_code_decodes(v, 0b101, 3, 2i32) &&
            vlc_code_decodes(v, 0b110, 3, -1i32) &&
            vlc_code_decodes(v, 0b11100, 5, -4i32) &&
            vlc_code_decodes(v, 0b11101, 5, 4i32) &&
            vlc_code_decodes(v, 0b11110, 5, -3i32) &&
            vlc_code_decodes(v, 0b11111, 5, 3i32)
        ),
        class == 3 && sub == 2 ==> (
            vlc_code_decodes(v, 0b00, 2, 1i32) &&
            vlc_code_decodes(v, 0b01, 2, 0i32) &&
            vlc_code_decodes(v, 0b100, 3, -2i32) &&
            vlc_code_decodes(v, 0b101, 3, 2i32) &&
            vlc_code_decodes(v, 0b110, 3, -1i32) &&
            vlc_code_decodes(v, 0b1110, 4, 3i32) &&
            vlc_code_decodes(v, 0b11110, 5, -3i32) &&
            vlc_code_decodes(v, 0b111110, 6, -4i32) &&
            vlc_code_decodes(v, 0b111111, 6, 4i32)
        ),
        class == 4 && sub == 0 ==> (
            vlc_code_decodes(v, 0b0, 1, 0i32) &&
            vlc_code_decodes(v, 0b100, 3, 1i32) &&
            vlc_code_decodes(v, 0b1010, 4, 3i32) &&
            vlc_code_decodes(v, 0b1011, 4, -2i32) &&
            vlc_code_decodes(v, 0b1100, 4, 2i32) &&
            vlc_code_decodes(v, 0b1101, 4, -1i32) &&
            vlc_code_decodes(v, 0b11100, 5, 4i32) &&
            vlc_code_decodes(v, 0b11101, 5, -3i32) &&
            vlc_code_decodes(v, 0b111100, 6, -5i32) &&
            vlc_code_decodes(v, 0b111101, 6, 5i32) &&
            vlc_code_decodes(v, 0b111110, 6, -4i32) &&
            vlc_code_decodes(v, 0b1111110, 7, -6i32) &&
            vlc_code_decodes(v, 0b1111111, 7, 6i32)
        ),
        class == 4 && sub == 1 ==> (
            vlc_code_decodes(v, 0b00, 2, 0i32) &&
            vlc_code_decodes(v, 0b010, 3, 2i32) &&
            vlc_code_decodes(v, 0b011, 3, -1i32) &&
            vlc_code_decodes(v, 0b100, 3, 1i32) &&
            vlc_code_decodes(v, 0b1010, 4, 4i32) &&
            vlc_code_decodes(v, 0b1011, 4, -3i32) &&
            vlc_code_decodes(v, 0b1100, 4, 3i32) &&
            vlc_code_decodes(v, 0b1101, 4, -2i32) &&
            vlc_code_decodes(v, 0b11100, 5, -5i32) &&
            vlc_code_decodes(v, 0b11101, 5, 5i32) &&
            vlc_code_decodes(v, 0b11110, 5, -4i32) &&
            vlc_code_decodes(v, 0b111110, 6, -6i32) &&
            vlc_code_decodes(v, 0b111111, 6, 6i32)
        ),
        class == 4 && sub == 2 ==> (
            vlc_code_decodes(v, 0b000, 3, -2i32) &&
            vlc_code_decodes(v, 0b001, 3, 2i32) &&
            vlc_code_decodes(v, 0b010, 3, -1i32) &&
            vlc_code_decodes(v, 0b011, 3, 1i32) &&
            vlc_code_decodes(v, 0b100, 3, 0i32) &&
            vlc_code_decodes(v, 0b1010, 4, -4i32) &&
            vlc_code_decodes(v, 0b1011, 4, 4i32) &&
            vlc_code_decodes(v, 0b1100, 4, -3i32) &&
            vlc_code_decodes(v, 0b1101, 4, 3i32) &&
            vlc_code_decodes(v, 0b11100, 5, -6i32) &&
            vlc_code_decodes(v, 0b11101, 5, 6i32) &&
            vlc_code_decodes(v, 0b11110, 5, -5i32) &&
            vlc_code_decodes(v, 0b11111, 5, 5i32)
        ),
        (class >= 5 || (1 <= class <= 4 && sub > 2)) ==> vlc_code_decodes(v, 0b0, 1, 0i32),
{
    if class == 0 {
        lemma_book_bitalloc_3(v, BITALLOC_OFFSETS@[0]);
    } else if class == 1 && sub == 0 {
        lemma_book_bitalloc_5_a(v, BITALLOC_OFFSETS@[1]);
    } else if class == 1 && sub == 1 {
        lemma_book_bitalloc_5_b(v, BITALLOC_OFFSETS@[1]);
    } else if class == 1 && sub == 2 {
        lemma_book_bitalloc_5_c(v, BITALLOC_OFFSETS@[1]);
    } else if class == 2 && sub == 0 {
        lemma_book_bitalloc_7_a(v, BITALLOC_OFFSETS@[2]);
    } else if class == 2 && sub == 1 {
        lemma_book_bitalloc_7_b(v, BITALLOC_OFFSETS@[2]);
    } else if class == 2 && sub == 2 {
        lemma_book_bitalloc_7_c(v, BITALLOC_OFFSETS@[2]);
    } else if class == 3 && sub == 0 {
        lemma_book_bitalloc_9_a(v, BITALLOC_OFFSETS@[3]);
    } else if class == 3 && sub == 1 {
        lemma_book_bitalloc_9_b(v, BITALLOC_OFFSETS@[3]);
    } else if class == 3 && sub == 2 {
        lemma_book_bitalloc_9_c(v, BITALLOC_OFFSETS@[3]);
    } else if class == 4 && sub == 0 {
        lemma_book_bitalloc_13_a(v, BITALLOC_OFFSETS@[4]);
    } else if class == 4 && sub == 1 {
        lemma_book_bitalloc_13_b(v, BITALLOC_OFFSETS@[4]);
    } else if class == 4 && sub == 2 {
        lemma_book_bitalloc_13_c(v, BITALLOC_OFFSETS@[4]);
    } else {
        lemma_book_fallback(v, 0);
    }
}

/// The 12-entry ABITS books, code by code: each code, assigned in
/// canonical order, decodes to its row's symbol plus one. BHUFF 0 (and any
/// value past 4): 0 -> 1, 10 -> 2, 110 -> 3, 1110 -> 4, 11110 -> 5,
/// 111110 -> 6, 11111100 -> 8, 11111101 -> 7, 111111100 -> 12,
/// 111111101 -> 11, 111111110 -> 10, 111111111 -> 9. The other books are
/// listed below, one clause each.
pub proof fn lemma_bhuff_codes(idx: usize, v: Vlc)
    requires
        is_built_from(v, bhuff_rows(idx), BITALLOC_12_OFFSET),
    ensures
        (idx == 0 || idx > 4) ==> (
            vlc_code_decodes(v, 0b0, 1, 1i32) &&
            vlc_code_decodes(v, 0b10, 2, 2i32) &&
            vlc_code_decodes(v, 0b110, 3, 3i32) &&
            vlc_code_decodes(v, 0b1110, 4, 4i32) &&
            vlc_code_decodes(v, 0b11110, 5, 5i32) &&
            vlc_code_decodes(v, 0b111110, 6, 6i32) &&
            vlc_code_decodes(v, 0b11111100, 8, 8i32) &&
            vlc_code_decodes(v, 0b11111101, 8, 7i32) &&
            vlc_code_decodes(v, 0b111111100, 9, 12i32) &&
            vlc_code_decodes(v, 0b111111101, 9, 11i32) &&
            vlc_code_decodes(v, 0b111111110, 9, 10i32) &&
            vlc_code_decodes(v, 0b111111111, 9, 9i32)
        ),
        idx == 1 ==> (
            vlc_code_decodes(v, 0b0, 1, 1i32) &&
            vlc_code_decodes(v, 0b10, 2, 2i32) &&
            vlc_code_decodes(v, 0b110, 3, 3i32) &&
            vlc_code_decodes(v, 0b11100, 5, 5i32) &&
            vlc_code_decodes(v, 0b11101, 5, 4i32) &&
            vlc_code_decodes(v, 0b111100, 6, 6i32) &&
            vlc_code_decodes(v, 0b1111010, 7, 12i32) &&
            vlc_code_decodes(v, 0b1111011, 7, 11i32) &&
            vlc_code_decodes(v, 0b1111100, 7, 10i32) &&
            vlc_code_decodes(v, 0b1111101, 7, 9i32) &&
            vlc_code_decodes(v, 0b1111110, 7, 8i32) &&
            vlc_code_decodes(v, 0b1111111, 7, 7i32)
        ),
        idx == 2 ==> (
            vlc_code_decodes(v, 0b00, 2, 1i32) &&
            vlc_code_decodes(v, 0b010, 3, 5i32) &&
            vlc_code_decodes(v, 0b011, 3, 4i32) &&
            vlc_code_decodes(v, 0b100, 3, 3i32) &&
            vlc_code_decodes(v, 0b101, 3, 2i32) &&
            vlc_code_decodes(v, 0b1100, 4, 8i32) &&
            vlc_code_decodes(v, 0b1101, 4, 7i32) &&
            vlc_code_decodes(v, 0b1110, 4, 6i32) &&
            vlc_code_decodes(v, 0b11110, 5, 9i32) &&
            vlc_code_decodes(v, 0b111110, 6, 10i32) &&
            vlc_code_decodes(v, 0b1111110, 7, 12i32) &&
            vlc_code_decodes(v, 0b1111111, 7, 11i32)
        ),
        idx == 3 ==> (
            vlc_code_decodes(v, 0b00, 2, 3i32) &&
            vlc_code_decodes(v, 0b01, 2, 2i32) &&
            vlc_code_decodes(v, 0b10, 2, 1i32) &&
            vlc_code_decodes(v, 0b110, 3, 4i32) &&
            vlc_code_decodes(v, 0b1110, 4, 5i32) &&
            vlc_code_decodes(v, 0b11110, 5, 6i32) &&
            vlc_code_decodes(v, 0b111110, 6, 7i32) &&
            vlc_code_decodes(v, 0b1111110, 7, 8i32) &&
            vlc_code_decodes(v, 0b11111110, 8, 9i32) &&
            vlc_code_decodes(v, 0b111111110, 9, 10i32) &&
            vlc_code_decodes(v, 0b1111111110, 10, 12i32) &&
            vlc_code_decodes(v, 0b1111111111, 10, 11i32)
        ),
        idx == 4 ==> (
            vlc_code_decodes(v, 0b0, 1, 1i32) &&
            vlc_code_decodes(v, 0b10, 2, 2i32) &&
            vlc_code_decodes(v, 0b110, 3, 3i32) &&
            vlc_code_decodes(v, 0b1110, 4, 4i32) &&
            vlc_code_decodes(v, 0b11110, 5, 5i32) &&
            vlc_code_decodes(v, 0b1111100, 7, 7i32) &&
            vlc_code_decodes(v, 0b1111101, 7, 6i32) &&
            vlc_code_decodes(v, 0b11111100, 8, 10i32) &&
            vlc_code_decodes(v, 0b11111101, 8, 9i32) &&
            vlc_code_decodes(v, 0b11111110, 8, 8i32) &&
            vlc_code_decodes(v, 0b111111110, 9, 12i32) &&
            vlc_code_decodes(v, 0b111111111, 9, 11i32)
        ),
{
    if idx == 1 {
        lemma_book_bitalloc_12_b(v, BITALLOC_12_OFFSET);
    } else if idx == 2 {
        lemma_book_bitalloc_12_c(v, BITALLOC_12_OFFSET);
    } else if idx == 3 {
        lemma_book_bitalloc_12_d(v, BITALLOC_12_OFFSET);
    } else if idx == 4 {
        lemma_book_bitalloc_12_e(v, BITALLOC_12_OFFSET);
    } else {
        lemma_book_bitalloc_12_a(v, BITALLOC_12_OFFSET);
    }
}

} // verus!
