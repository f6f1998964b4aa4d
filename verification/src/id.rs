//! Entry identifiers.
//!
//! An entry is named by a 128-bit identifier, generated at store time and
//! rendered in the usual hyphenated form (`8-4-4-4-12` lower-case
//! hexadecimal digits) wherever it appears in a file name or a request.

use vstd::prelude::*;
use crate::digits::{
    format_hex, hex_char_val, hex_digits, hex_val, is_dec_char, is_hex_char, lemma_hex_digits_wf,
    lemma_hex_val_concat, lemma_pow16_mono, lemma_pow16_pos, pow16,
};

verus! {

/// A 128-bit entry identifier.
#[derive(Clone, Copy, PartialEq, Eq, Structural, Debug)]
pub struct EntryId {
    pub value: u128,
}

/// The hyphenated rendering of the identifier value `n`.
pub open spec fn id_chars(n: nat) -> Seq<char> {
    let d = hex_digits(n, 32);
    d.subrange(0, 8) + seq!['-'] + d.subrange(8, 12) + seq!['-'] + d.subrange(12, 16) + seq!['-']
        + d.subrange(16, 20) + seq!['-'] + d.subrange(20, 32)
}

/// The 32 digit positions of a hyphenated identifier string.
pub open spec fn id_digit_chars(s: Seq<char>) -> Seq<char> {
    s.subrange(0, 8) + s.subrange(9, 13) + s.subrange(14, 18) + s.subrange(19, 23) + s.subrange(
        24,
        36,
    )
}

/// A well-formed hyphenated identifier string: 36 characters, hyphens in
/// the fixed positions, hexadecimal digits everywhere else.
pub open spec fn wf_id_chars(s: Seq<char>) -> bool {
    &&& s.len() == 36
    &&& s[8] == '-'
    &&& s[13] == '-'
    &&& s[18] == '-'
    &&& s[23] == '-'
    &&& forall|i: int| 0 <= i < 32 ==> is_hex_char(#[trigger] id_digit_chars(s)[i])
}

/// The identifier value a well-formed identifier string denotes.
pub open spec fn id_val(s: Seq<char>) -> nat {
    hex_val(id_digit_chars(s))
}

/// Accumulates the hexadecimal digits `s[from..to]` onto `acc`.
fn accum_hex(s: &str, from: usize, to: usize, acc: u128, Ghost(k): Ghost<nat>) -> (r: Option<
    u128,
>)
    requires
        from <= to <= s@.len(),
        acc < pow16(k),
        k + (to - from) <= 32,
    ensures
        match r {
            Some(v) => {
                &&& forall|j: int| from <= j < to ==> is_hex_char(#[trigger] s@[j])
                &&& v as nat == acc as nat * pow16((to - from) as nat) + hex_val(
                    s@.subrange(from as int, to as int),
                )
                &&& (v as nat) < pow16((k + (to - from)) as nat)
            },
            None => exists|j: int| from <= j < to && !is_hex_char(#[trigger] s@[j]),
        },
{
    let mut pos: usize = from;
    let mut v: u128 = acc;
    proof {
        assert(s@.subrange(from as int, from as int) =~= Seq::<char>::empty());
        assert(v as nat * 1 == v as nat) by (nonlinear_arith);
    }
    while pos < to
        invariant
            from <= pos <= to <= s@.len(),
            acc < pow16(k),
            k + (to - from) <= 32,
            forall|j: int| from <= j < pos ==> is_hex_char(#[trigger] s@[j]),
            v as nat == acc as nat * pow16((pos - from) as nat) + hex_val(
                s@.subrange(from as int, pos as int),
            ),
            (v as nat) < pow16((k + (pos - from)) as nat),
        decreases to - pos,
    {
        let c = s.get_char(pos);
        let is_dec = '0' <= c && c <= '9';
        let is_low = 'a' <= c && c <= 'f';
        if !is_dec && !is_low {
            proof {
                assert(!is_hex_char(s@[pos as int]));
            }
            return None;
        }
        let d: u128 = if is_dec {
            (c as u32 - '0' as u32) as u128
        } else {
            (c as u32 - 'a' as u32 + 10) as u128
        };
        proof {
            assert(d == hex_char_val(c));
            let w = (pos - from) as nat;
            assert(pow16((k + w + 1) as nat) == 16 * pow16((k + w) as nat));
            crate::digits::lemma_pow16_32();
            lemma_pow16_mono((k + w + 1) as nat, 32);
            assert(v as nat * 16 + d < pow16((k + w + 1) as nat)) by (nonlinear_arith)
                requires
                    (v as nat) < pow16((k + w) as nat),
                    d < 16,
                    pow16((k + w + 1) as nat) == 16 * pow16((k + w) as nat),
            {}
            let sub = s@.subrange(from as int, pos as int);
            let sub1 = s@.subrange(from as int, pos + 1);
            assert(sub1.drop_last() =~= sub);
            assert(sub1.last() == c);
            assert(hex_val(sub1) == hex_val(sub) * 16 + d);
            assert(pow16((w + 1) as nat) == 16 * pow16(w));
            assert((acc as nat * pow16(w) + hex_val(sub)) * 16 + d == acc as nat * (16 * pow16(w))
                + (hex_val(sub) * 16 + d)) by (nonlinear_arith);
        }
        v = v * 16 + d;
        pos += 1;
    }
    Some(v)
}

impl EntryId {
    /// Generates a fresh identifier.
    ///
    /// Relies on `uuid::Uuid::new_v4` for a freshly generated random
    /// 128-bit value; nothing is promised of the result.
    #[verifier::external_body]
    pub fn generate() -> EntryId {
        EntryId { value: uuid::Uuid::new_v4().as_u128() }
    }

    /// Renders the identifier in its hyphenated form.
    pub fn to_hyphenated(&self) -> (s: String)
        ensures
            s@ == id_chars(self.value as nat),
            s@.len() == 36,
    {
        let hs = format_hex(self.value, 32);
        proof {
            lemma_hex_digits_wf(self.value as nat, 32);
            reveal_strlit("-");
        }
        let mut s = String::new();
        s.append(hs.as_str().substring_char(0, 8));
        s.append("-");
        s.append(hs.as_str().substring_char(8, 12));
        s.append("-");
        s.append(hs.as_str().substring_char(12, 16));
        s.append("-");
        s.append(hs.as_str().substring_char(16, 20));
        s.append("-");
        s.append(hs.as_str().substring_char(20, 32));
        proof {
            assert(s@ =~= id_chars(self.value as nat));
        }
        s
    }

    /// Parses a hyphenated identifier string.
    pub fn parse(s: &str) -> (r: Option<EntryId>)
        ensures
            match r {
                Some(id) => wf_id_chars(s@) && id.value as nat == id_val(s@),
                None => !wf_id_chars(s@),
            },
    {
        let len = s.unicode_len();
        if len != 36 {
            return None;
        }
        if s.get_char(8) != '-' || s.get_char(13) != '-' || s.get_char(18) != '-' || s.get_char(23)
            != '-' {
            return None;
        }
        proof {
            lemma_pow16_pos(0);
        }
        let ghost dc = id_digit_chars(s@);
        let Some(v1) = accum_hex(s, 0, 8, 0, Ghost(0nat)) else {
            proof {
                lemma_bad_digit(s@);
            }
            return None;
        };
        let Some(v2) = accum_hex(s, 9, 13, v1, Ghost(8nat)) else {
            proof {
                lemma_bad_digit(s@);
            }
            return None;
        };
        let Some(v3) = accum_hex(s, 14, 18, v2, Ghost(12nat)) else {
            proof {
                lemma_bad_digit(s@);
            }
            return None;
        };
        let Some(v4) = accum_hex(s, 19, 23, v3, Ghost(16nat)) else {
            proof {
                lemma_bad_digit(s@);
            }
            return None;
        };
        let Some(v5) = accum_hex(s, 24, 36, v4, Ghost(20nat)) else {
            proof {
                lemma_bad_digit(s@);
            }
            return None;
        };
        proof {
            let a = s@.subrange(0, 8);
            let b = s@.subrange(9, 13);
            let c = s@.subrange(14, 18);
            let d = s@.subrange(19, 23);
            let e = s@.subrange(24, 36);
            lemma_hex_val_concat(a, b);
            lemma_hex_val_concat(a + b, c);
            lemma_hex_val_concat(a + b + c, d);
            lemma_hex_val_concat(a + b + c + d, e);
            assert(v2 as nat == hex_val(a + b)) by (nonlinear_arith)
                requires
                    v1 as nat == 0 * pow16(8) + hex_val(a),
                    v2 as nat == v1 as nat * pow16(4) + hex_val(b),
                    hex_val(a + b) == hex_val(a) * pow16(b.len()) + hex_val(b),
                    b.len() == 4,
            {}
            assert(v3 as nat == hex_val(a + b + c)) by (nonlinear_arith)
                requires
                    v3 as nat == v2 as nat * pow16(4) + hex_val(c),
                    v2 as nat == hex_val(a + b),
                    hex_val(a + b + c) == hex_val(a + b) * pow16(c.len()) + hex_val(c),
                    c.len() == 4,
            {}
            assert(v4 as nat == hex_val(a + b + c + d)) by (nonlinear_arith)
                requires
                    v4 as nat == v3 as nat * pow16(4) + hex_val(d),
                    v3 as nat == hex_val(a + b + c),
                    hex_val(a + b + c + d) == hex_val(a + b + c) * pow16(d.len()) + hex_val(d),
                    d.len() == 4,
            {}
            assert(v5 as nat == hex_val(a + b + c + d + e)) by (nonlinear_arith)
                requires
                    v5 as nat == v4 as nat * pow16(12) + hex_val(e),
                    v4 as nat == hex_val(a + b + c + d),
                    hex_val(a + b + c + d + e) == hex_val(a + b + c + d) * pow16(e.len())
                        + hex_val(e),
                    e.len() == 12,
            {}
            assert(id_digit_chars(s@) == a + b + c + d + e);
            assert forall|i: int| 0 <= i < 32 implies is_hex_char(
                #[trigger] id_digit_chars(s@)[i],
            ) by {
                if i < 8 {
                    assert(id_digit_chars(s@)[i] == s@[i]);
                } else if i < 12 {
                    assert(id_digit_chars(s@)[i] == s@[i + 1]);
                } else if i < 16 {
                    assert(id_digit_chars(s@)[i] == s@[i + 2]);
                } else if i < 20 {
                    assert(id_digit_chars(s@)[i] == s@[i + 3]);
                } else {
                    assert(id_digit_chars(s@)[i] == s@[i + 4]);
                }
            }
        }
        Some(EntryId { value: v5 })
    }
}

/// A non-digit among the digit positions breaks well-formedness.
proof fn lemma_bad_digit(s: Seq<char>)
    requires
        s.len() == 36,
        exists|j: int|
            (0 <= j < 8 || 9 <= j < 13 || 14 <= j < 18 || 19 <= j < 23 || 24 <= j < 36)
                && !is_hex_char(#[trigger] s[j]),
    ensures
        !wf_id_chars(s),
{
    let j = choose|j: int|
        (0 <= j < 8 || 9 <= j < 13 || 14 <= j < 18 || 19 <= j < 23 || 24 <= j < 36)
            && !is_hex_char(#[trigger] s[j]);
    if wf_id_chars(s) {
        if j < 8 {
            assert(id_digit_chars(s)[j] == s[j]);
        } else if j < 13 {
            assert(id_digit_chars(s)[j - 1] == s[j]);
        } else if j < 18 {
            assert(id_digit_chars(s)[j - 2] == s[j]);
        } else if j < 23 {
            assert(id_digit_chars(s)[j - 3] == s[j]);
        } else {
            assert(id_digit_chars(s)[j - 4] == s[j]);
        }
    }
}

/// Formatting an identifier and parsing the result yields the identifier
/// back: the hyphenated rendering is well formed and denotes the value it
/// was rendered from.
pub proof fn lemma_id_chars_round_trip(n: nat)
    requires
        n < pow16(32),
    ensures
        id_chars(n).len() == 36,
        wf_id_chars(id_chars(n)),
        id_val(id_chars(n)) == n,
{
    let d = hex_digits(n, 32);
    lemma_hex_digits_wf(n, 32);
    let s = id_chars(n);
    assert(s.len() == 36);
    assert(s[8] == '-');
    assert(s[13] == '-');
    assert(s[18] == '-');
    assert(s[23] == '-');
    assert(id_digit_chars(s) =~= d);
    assert(id_val(s) == hex_val(d));
}

} // verus!
