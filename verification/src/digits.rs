//! Decimal and hexadecimal digit strings.
//!
//! The metadata descriptor records lengths and sizes as decimal numbers, and
//! an entry identifier is rendered as hexadecimal digits. This module defines
//! what those digit strings mean (`dec_val`, `hex_val`), which digit string a
//! number renders to (`dec_digits`, `hex_digits`), executable formatting and
//! scanning, and the round-trip lemmas the rest of the crate builds on.

use vstd::prelude::*;

verus! {

/// The character for the decimal digit `d` (meaningful for `d < 10`).
pub open spec fn dec_char(d: nat) -> char {
    if d == 0 {
        '0'
    } else if d == 1 {
        '1'
    } else if d == 2 {
        '2'
    } else if d == 3 {
        '3'
    } else if d == 4 {
        '4'
    } else if d == 5 {
        '5'
    } else if d == 6 {
        '6'
    } else if d == 7 {
        '7'
    } else if d == 8 {
        '8'
    } else {
        '9'
    }
}

pub open spec fn is_dec_char(c: char) -> bool {
    '0' <= c && c <= '9'
}

/// The numeric value of a decimal digit character (meaningful when
/// `is_dec_char(c)` holds).
pub open spec fn dec_char_val(c: char) -> nat {
    (c as nat - '0' as nat) as nat
}

/// The value of a digit string, most significant digit first.
pub open spec fn dec_val(s: Seq<char>) -> nat
    decreases s.len(),
{
    if s.len() == 0 {
        0
    } else {
        dec_val(s.drop_last()) * 10 + dec_char_val(s.last())
    }
}

/// The canonical decimal rendering of `n` (no leading zeros; `0` is "0").
pub open spec fn dec_digits(n: nat) -> Seq<char>
    decreases n,
{
    if n < 10 {
        seq![dec_char(n)]
    } else {
        dec_digits(n / 10).push(dec_char(n % 10))
    }
}

/// A canonical decimal rendering consists of digits and reads back as the
/// number it was rendered from.
pub proof fn lemma_dec_digits_wf(n: nat)
    ensures
        dec_digits(n).len() >= 1,
        forall|i: int| 0 <= i < dec_digits(n).len() ==> is_dec_char(#[trigger] dec_digits(n)[i]),
        dec_val(dec_digits(n)) == n,
    decreases n,
{
    if n < 10 {
        assert(dec_digits(n) =~= seq![dec_char(n)]);
        assert(dec_digits(n).drop_last() =~= Seq::<char>::empty());
        assert(dec_val(Seq::<char>::empty()) == 0);
        assert(dec_char_val(dec_char(n)) == n);
        assert(dec_val(dec_digits(n)) == dec_val(Seq::<char>::empty()) * 10 + dec_char_val(
            dec_char(n),
        ));
    } else {
        lemma_dec_digits_wf(n / 10);
        let prefix = dec_digits(n / 10);
        assert(dec_digits(n) =~= prefix.push(dec_char(n % 10)));
        assert(dec_digits(n).drop_last() =~= prefix);
        assert(dec_char_val(dec_char(n % 10)) == n % 10);
        assert(dec_val(dec_digits(n)) == (n / 10) * 10 + n % 10);
        vstd::arithmetic::div_mod::lemma_fundamental_div_mod(n as int, 10);
    }
}

/// Appending characters to a digit string never lowers its value.
pub proof fn lemma_dec_val_prefix_le(s: Seq<char>, t: Seq<char>)
    requires
        s.len() <= t.len(),
        t.subrange(0, s.len() as int) == s,
    ensures
        dec_val(s) <= dec_val(t),
    decreases t.len(),
{
    if t.len() > s.len() {
        let t1 = t.drop_last();
        assert(t1.subrange(0, s.len() as int) =~= s);
        lemma_dec_val_prefix_le(s, t1);
    } else {
        assert(t =~= s);
    }
}

/// The index of the first character at or after `i` that is not a decimal
/// digit (or the end of the string).
pub open spec fn run_end(s: Seq<char>, i: int) -> int
    decreases s.len() - i,
{
    if 0 <= i < s.len() && is_dec_char(s[i]) {
        run_end(s, i + 1)
    } else {
        i
    }
}

pub proof fn lemma_run_end(s: Seq<char>, i: int)
    requires
        0 <= i <= s.len(),
    ensures
        i <= run_end(s, i) <= s.len(),
        forall|j: int| i <= j < run_end(s, i) ==> is_dec_char(#[trigger] s[j]),
        run_end(s, i) == s.len() || !is_dec_char(s[run_end(s, i)]),
    decreases s.len() - i,
{
    if i < s.len() && is_dec_char(s[i]) {
        lemma_run_end(s, i + 1);
    }
}

/// Where a digit run is followed by a non-digit (or the end), the run ends
/// exactly there.
pub proof fn lemma_run_end_concrete(s: Seq<char>, i: int, k: int)
    requires
        0 <= i <= k <= s.len(),
        forall|j: int| i <= j < k ==> is_dec_char(#[trigger] s[j]),
        k == s.len() || !is_dec_char(s[k]),
    ensures
        run_end(s, i) == k,
    decreases k - i,
{
    if i < k {
        lemma_run_end_concrete(s, i + 1, k);
    }
}

/// A run of digits starting at `i` pushes the run end at least that far.
pub proof fn lemma_run_end_at_least(s: Seq<char>, i: int, k: int)
    requires
        0 <= i <= k <= s.len(),
        forall|j: int| i <= j < k ==> is_dec_char(#[trigger] s[j]),
    ensures
        run_end(s, i) >= k,
    decreases k - i,
{
    if i < k {
        lemma_run_end_at_least(s, i + 1, k);
    } else {
        lemma_run_end(s, i);
    }
}

/// The rendering of the decimal digit `d` as a string slice.
pub(crate) fn dec_digit_str(d: u64) -> (r: &'static str)
    requires
        d < 10,
    ensures
        r@ == seq![dec_char(d as nat)],
{
    let r: &'static str = if d == 0 {
        proof { reveal_strlit("0"); }
        "0"
    } else if d == 1 {
        proof { reveal_strlit("1"); }
        "1"
    } else if d == 2 {
        proof { reveal_strlit("2"); }
        "2"
    } else if d == 3 {
        proof { reveal_strlit("3"); }
        "3"
    } else if d == 4 {
        proof { reveal_strlit("4"); }
        "4"
    } else if d == 5 {
        proof { reveal_strlit("5"); }
        "5"
    } else if d == 6 {
        proof { reveal_strlit("6"); }
        "6"
    } else if d == 7 {
        proof { reveal_strlit("7"); }
        "7"
    } else if d == 8 {
        proof { reveal_strlit("8"); }
        "8"
    } else {
        proof { reveal_strlit("9"); }
        "9"
    };
    proof {
        assert(r@ =~= seq![dec_char(d as nat)]);
    }
    r
}

/// Renders `n` in decimal, most significant digit first.
pub fn format_u64(n: u64) -> (s: String)
    ensures
        s@ == dec_digits(n as nat),
    decreases n,
{
    if n < 10 {
        let s = String::from_str(dec_digit_str(n));
        proof {
            assert(s@ =~= dec_digits(n as nat));
        }
        s
    } else {
        let mut s = format_u64(n / 10);
        s.append(dec_digit_str(n % 10));
        proof {
            assert(s@ =~= dec_digits(n as nat));
        }
        s
    }
}

/// Scans the decimal digit run of `s` that starts at `from`; returns its
/// value and its end position, or `None` when the run is empty or its value
/// does not fit in a `u64`.
pub fn scan_dec(s: &str, from: usize, len: usize) -> (r: Option<(u64, usize)>)
    requires
        from <= len,
        len == s@.len(),
    ensures
        match r {
            Some(p) => {
                &&& from < p.1
                &&& p.1 == run_end(s@, from as int)
                &&& p.0 as nat == dec_val(s@.subrange(from as int, p.1 as int))
            },
            None => run_end(s@, from as int) == from || dec_val(
                s@.subrange(from as int, run_end(s@, from as int)),
            ) > u64::MAX,
        },
{
    proof {
        lemma_run_end(s@, from as int);
    }
    let ghost end = run_end(s@, from as int);
    let mut pos: usize = from;
    let mut v: u64 = 0;
    while pos < len
        invariant
            from <= pos <= len,
            len == s@.len(),
            end == run_end(s@, from as int),
            from <= end <= s@.len(),
            forall|j: int| from <= j < end ==> is_dec_char(#[trigger] s@[j]),
            end == s@.len() || !is_dec_char(s@[end]),
            pos <= end,
            v as nat == dec_val(s@.subrange(from as int, pos as int)),
        decreases len - pos,
    {
        let c = s.get_char(pos);
        let is_digit = '0' <= c && c <= '9';
        if !is_digit {
            proof {
                lemma_run_end_concrete(s@, from as int, pos as int);
            }
            if pos == from {
                return None;
            }
            return Some((v, pos));
        }
        let d: u64 = (c as u32 - '0' as u32) as u64;
        proof {
            assert(pos < end);
            assert(d == dec_char_val(c));
        }
        if v > (u64::MAX - d) / 10 {
            // The run's value exceeds the largest representable size.
            proof {
                let w = s@.subrange(from as int, pos + 1);
                assert(w.drop_last() =~= s@.subrange(from as int, pos as int));
                assert(w.last() == c);
                assert(dec_val(w) == v as nat * 10 + d);
                assert(v as int * 10 + d > u64::MAX as int) by (nonlinear_arith)
                    requires
                        v as int > (u64::MAX as int - d as int) / 10,
                        0 <= d < 10,
                        0 <= v,
                {}
                assert(w.len() <= end - from);
                assert(s@.subrange(from as int, end).subrange(0, w.len() as int) =~= w);
                lemma_dec_val_prefix_le(w, s@.subrange(from as int, end));
            }
            return None;
        }
        proof {
            assert(v as int * 10 + d as int <= u64::MAX as int) by (nonlinear_arith)
                requires
                    v as int <= (u64::MAX as int - d as int) / 10,
                    0 <= d < 10,
                    0 <= v,
            {}
            let w = s@.subrange(from as int, pos + 1);
            assert(w.drop_last() =~= s@.subrange(from as int, pos as int));
            assert(w.last() == c);
            assert(dec_val(w) == v as nat * 10 + d);
        }
        v = v * 10 + d;
        pos += 1;
    }
    proof {
        lemma_run_end_concrete(s@, from as int, pos as int);
    }
    if pos == from {
        None
    } else {
        Some((v, pos))
    }
}

/// The character for the hexadecimal digit `d` (meaningful for `d < 16`;
/// letters are lower case).
pub open spec fn hex_char(d: nat) -> char {
    if d < 10 {
        dec_char(d)
    } else if d == 10 {
        'a'
    } else if d == 11 {
        'b'
    } else if d == 12 {
        'c'
    } else if d == 13 {
        'd'
    } else if d == 14 {
        'e'
    } else {
        'f'
    }
}

pub open spec fn is_hex_char(c: char) -> bool {
    is_dec_char(c) || ('a' <= c && c <= 'f')
}

/// The numeric value of a hexadecimal digit character (meaningful when
/// `is_hex_char(c)` holds).
pub open spec fn hex_char_val(c: char) -> nat {
    if is_dec_char(c) {
        dec_char_val(c)
    } else {
        (c as nat - 'a' as nat + 10) as nat
    }
}

/// The value of a hexadecimal digit string, most significant digit first.
pub open spec fn hex_val(s: Seq<char>) -> nat
    decreases s.len(),
{
    if s.len() == 0 {
        0
    } else {
        hex_val(s.drop_last()) * 16 + hex_char_val(s.last())
    }
}

/// `16^w`.
pub open spec fn pow16(w: nat) -> nat
    decreases w,
{
    if w == 0 {
        1
    } else {
        16 * pow16((w - 1) as nat)
    }
}

/// The fixed-width hexadecimal rendering of `n`, most significant digit
/// first (the value is taken modulo `16^w`).
pub open spec fn hex_digits(n: nat, w: nat) -> Seq<char>
    decreases w,
{
    if w == 0 {
        Seq::empty()
    } else {
        hex_digits(n / 16, (w - 1) as nat).push(hex_char(n % 16))
    }
}

pub proof fn lemma_pow16_pos(w: nat)
    ensures
        pow16(w) >= 1,
    decreases w,
{
    if w > 0 {
        lemma_pow16_pos((w - 1) as nat);
    }
}

pub proof fn lemma_pow16_mono(a: nat, b: nat)
    requires
        a <= b,
    ensures
        pow16(a) <= pow16(b),
    decreases b,
{
    if a < b {
        lemma_pow16_mono(a, (b - 1) as nat);
        lemma_pow16_pos(a);
    }
}

/// A fixed-width hexadecimal rendering has that width, consists of
/// hexadecimal digits, and reads back as the rendered value.
pub proof fn lemma_hex_digits_wf(n: nat, w: nat)
    ensures
        hex_digits(n, w).len() == w,
        forall|i: int| 0 <= i < w ==> is_hex_char(#[trigger] hex_digits(n, w)[i]),
        hex_val(hex_digits(n, w)) == n % pow16(w),
        n < pow16(w) ==> hex_val(hex_digits(n, w)) == n,
    decreases w,
{
    lemma_pow16_pos(w);
    if w == 0 {
        assert(n % 1 == 0) by (nonlinear_arith);
    } else {
        lemma_hex_digits_wf(n / 16, (w - 1) as nat);
        let prefix = hex_digits(n / 16, (w - 1) as nat);
        let whole = hex_digits(n, w);
        assert(whole =~= prefix.push(hex_char(n % 16)));
        assert(whole.drop_last() =~= prefix);
        assert(hex_char_val(hex_char(n % 16)) == n % 16);
        assert(hex_val(whole) == ((n / 16) % pow16((w - 1) as nat)) * 16 + n % 16);
        vstd::arithmetic::div_mod::lemma_breakdown(n as int, 16, pow16((w - 1) as nat) as int);
        assert(16 * pow16((w - 1) as nat) == pow16(w));
        assert(((n / 16) % pow16((w - 1) as nat)) * 16 == 16 * ((n / 16) % pow16(
            (w - 1) as nat,
        ))) by (nonlinear_arith);
        if n < pow16(w) {
            vstd::arithmetic::div_mod::lemma_small_mod(n, pow16(w));
        }
    }
}

/// `16^32` is exactly one more than the largest 128-bit value.
pub proof fn lemma_pow16_32()
    ensures
        pow16(32) == 0x100000000000000000000000000000000,
{
    reveal_with_fuel(pow16, 33);
}

/// The value of a concatenation of digit strings.
pub proof fn lemma_hex_val_concat(a: Seq<char>, b: Seq<char>)
    ensures
        hex_val(a + b) == hex_val(a) * pow16(b.len()) + hex_val(b),
    decreases b.len(),
{
    if b.len() == 0 {
        assert(a + b =~= a);
        assert(hex_val(a) * 1 == hex_val(a)) by (nonlinear_arith);
    } else {
        let b1 = b.drop_last();
        lemma_hex_val_concat(a, b1);
        assert((a + b).drop_last() =~= a + b1);
        assert((a + b).last() == b.last());
        assert(hex_val(a + b) == (hex_val(a) * pow16(b1.len()) + hex_val(b1)) * 16 + hex_char_val(
            b.last(),
        ));
        assert(pow16(b.len()) == 16 * pow16(b1.len()));
        assert((hex_val(a) * pow16(b1.len()) + hex_val(b1)) * 16 == hex_val(a) * (16 * pow16(
            b1.len(),
        )) + hex_val(b1) * 16) by (nonlinear_arith);
    }
}

/// A hexadecimal digit string of width `w` denotes a value below `16^w`.
pub proof fn lemma_hex_val_bound(s: Seq<char>)
    requires
        forall|i: int| 0 <= i < s.len() ==> is_hex_char(#[trigger] s[i]),
    ensures
        hex_val(s) < pow16(s.len()),
    decreases s.len(),
{
    lemma_pow16_pos(s.len());
    if s.len() > 0 {
        let s1 = s.drop_last();
        lemma_hex_val_bound(s1);
        assert(hex_char_val(s.last()) < 16);
        assert(hex_val(s1) * 16 + 15 < 16 * pow16(s1.len())) by (nonlinear_arith)
            requires
                hex_val(s1) < pow16(s1.len()),
        {}
        assert(pow16(s.len()) == 16 * pow16(s1.len()));
    }
}

/// The rendering of the hexadecimal digit `d` as a string slice.
pub(crate) fn hex_digit_str(d: u128) -> (r: &'static str)
    requires
        d < 16,
    ensures
        r@ == seq![hex_char(d as nat)],
{
    if d < 10 {
        dec_digit_str(d as u64)
    } else {
        let r: &'static str = if d == 10 {
            proof { reveal_strlit("a"); }
            "a"
        } else if d == 11 {
            proof { reveal_strlit("b"); }
            "b"
        } else if d == 12 {
            proof { reveal_strlit("c"); }
            "c"
        } else if d == 13 {
            proof { reveal_strlit("d"); }
            "d"
        } else if d == 14 {
            proof { reveal_strlit("e"); }
            "e"
        } else {
            proof { reveal_strlit("f"); }
            "f"
        };
        proof {
            assert(r@ =~= seq![hex_char(d as nat)]);
        }
        r
    }
}

/// Renders the low `width` hexadecimal digits of `n`, most significant
/// digit first.
pub fn format_hex(n: u128, width: usize) -> (s: String)
    ensures
        s@ == hex_digits(n as nat, width as nat),
    decreases width,
{
    if width == 0 {
        let s = String::new();
        proof {
            assert(s@ =~= hex_digits(n as nat, 0));
        }
        s
    } else {
        let mut s = format_hex(n / 16, width - 1);
        s.append(hex_digit_str(n % 16));
        proof {
            assert(s@ =~= hex_digits(n as nat, width as nat));
        }
        s
    }
}

} // verus!
