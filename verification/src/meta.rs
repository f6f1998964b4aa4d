//! The metadata descriptor persisted beside each payload.
//!
//! A stored entry's `.meta` file holds a small structured descriptor: the
//! username, the file extension, and the byte length of the compressed
//! payload. Both text fields are length-prefixed, so the descriptor needs
//! no escaping and parses unambiguously whatever the fields contain.
//!
//! `encode_meta` and `parse_meta` are exact inverses; startup recovery
//! leans on that round trip.

use vstd::prelude::*;
use crate::data::Metadata;
use crate::digits::{
    dec_digits, dec_val, format_u64, is_dec_char, lemma_dec_digits_wf, lemma_run_end,
    lemma_run_end_concrete, run_end, scan_dec,
};

verus! {

/// The descriptor text for the fields `u`, `x` and `size`.
pub open spec fn encode_meta_chars(u: Seq<char>, x: Seq<char>, size: nat) -> Seq<char> {
    "username "@ + dec_digits(u.len()) + " "@ + u + "\nextension "@ + dec_digits(x.len()) + " "@
        + x + "\nsize "@ + dec_digits(size) + "\n"@
}

/// What descriptor text `s` denotes: the three fields where `s` is a
/// well-formed descriptor (with a size that fits in 64 bits), `None`
/// otherwise.
pub open spec fn parse_meta_chars(s: Seq<char>) -> Option<(Seq<char>, Seq<char>, nat)> {
    let l1 = "username "@;
    let l2 = "\nextension "@;
    let l3 = "\nsize "@;
    if s.len() < l1.len() || s.subrange(0, l1.len() as int) != l1 {
        None
    } else {
        let i1 = l1.len() as int;
        let e1 = run_end(s, i1);
        if e1 == i1 || e1 >= s.len() || s[e1] != ' ' {
            None
        } else {
            let ulen = dec_val(s.subrange(i1, e1)) as int;
            let ustart = e1 + 1;
            if ustart + ulen > s.len() {
                None
            } else {
                let u = s.subrange(ustart, ustart + ulen);
                let i2 = ustart + ulen;
                if i2 + l2.len() > s.len() || s.subrange(i2, i2 + l2.len() as int) != l2 {
                    None
                } else {
                    let i3 = i2 + l2.len() as int;
                    let e2 = run_end(s, i3);
                    if e2 == i3 || e2 >= s.len() || s[e2] != ' ' {
                        None
                    } else {
                        let xlen = dec_val(s.subrange(i3, e2)) as int;
                        let xstart = e2 + 1;
                        if xstart + xlen > s.len() {
                            None
                        } else {
                            let x = s.subrange(xstart, xstart + xlen);
                            let i4 = xstart + xlen;
                            if i4 + l3.len() > s.len() || s.subrange(i4, i4 + l3.len() as int)
                                != l3 {
                                None
                            } else {
                                let i5 = i4 + l3.len() as int;
                                let e3 = run_end(s, i5);
                                if e3 == i5 || e3 + 1 != s.len() || s[e3] != '\n' {
                                    None
                                } else {
                                    let size = dec_val(s.subrange(i5, e3));
                                    if size > u64::MAX {
                                        None
                                    } else {
                                        Some((u, x, size))
                                    }
                                }
                            }
                        }
                    }
                }
            }
        }
    }
}

/// Renders the descriptor text for `meta` and the compressed size `size`.
pub fn encode_meta(meta: &Metadata, size: u64) -> (s: String)
    ensures
        s@ == encode_meta_chars(meta.username@, meta.file_ext@, size as nat),
{
    let ulen = meta.username.as_str().unicode_len();
    let xlen = meta.file_ext.as_str().unicode_len();
    let mut s = String::new();
    s.append("username ");
    let du = format_u64(ulen as u64);
    s.append(du.as_str());
    s.append(" ");
    s.append(meta.username.as_str());
    s.append("\nextension ");
    let dx = format_u64(xlen as u64);
    s.append(dx.as_str());
    s.append(" ");
    s.append(meta.file_ext.as_str());
    s.append("\nsize ");
    let ds = format_u64(size);
    s.append(ds.as_str());
    s.append("\n");
    proof {
        assert(s@ =~= encode_meta_chars(meta.username@, meta.file_ext@, size as nat));
    }
    s
}

/// Decides whether `s[pos..]` starts with `lit`.
pub(crate) fn match_lit(s: &str, len: usize, pos: usize, lit: &str) -> (r: bool)
    requires
        pos <= len,
        len == s@.len(),
    ensures
        r == (pos + lit@.len() <= s@.len() && s@.subrange(pos as int, pos + lit@.len()) == lit@),
{
    let litlen = lit.unicode_len();
    if litlen > len - pos {
        return false;
    }
    let mut i: usize = 0;
    while i < litlen
        invariant
            0 <= i <= litlen,
            pos + litlen <= len,
            len == s@.len(),
            litlen == lit@.len(),
            forall|j: int| 0 <= j < i ==> s@[pos + j] == lit@[j],
        decreases litlen - i,
    {
        if s.get_char(pos + i) != lit.get_char(i) {
            proof {
                assert(s@.subrange(pos as int, pos + lit@.len())[i as int] != lit@[i as int]);
            }
            return false;
        }
        i += 1;
    }
    proof {
        assert(s@.subrange(pos as int, pos + lit@.len()) =~= lit@);
    }
    true
}

/// A string held in memory is no longer than `u64::MAX` characters, so a
/// length field whose value overflows a `u64` can never fit in it.
proof fn lemma_big_run_rejects(s: Seq<char>, i: int, len: nat)
    requires
        0 <= i <= s.len(),
        s.len() == len,
        len <= u64::MAX,
        run_end(s, i) == i || dec_val(s.subrange(i, run_end(s, i))) > u64::MAX,
    ensures
        run_end(s, i) == i || dec_val(s.subrange(i, run_end(s, i))) > s.len(),
{
}

/// Parses descriptor text back into metadata and a compressed size.
///
/// This is the exact inverse of `encode_meta`: it returns `Some` for
/// precisely the strings that `parse_meta_chars` accepts, with the same
/// fields.
pub fn parse_meta(s: &str) -> (r: Option<(Metadata, u64)>)
    ensures
        match r {
            Some(p) => parse_meta_chars(s@) == Some(
                (p.0.username@, p.0.file_ext@, p.1 as nat),
            ),
            None => parse_meta_chars(s@) is None,
        },
{
    let len = s.unicode_len();
    if !match_lit(s, len, 0, "username ") {
        return None;
    }
    let i1 = "username ".unicode_len();
    proof {
        assert(s@.subrange(0, i1 as int) == "username "@);
    }
    let Some((ulen, e1)) = scan_dec(s, i1, len) else {
        proof {
            lemma_run_end(s@, i1 as int);
            lemma_big_run_rejects(s@, i1 as int, len as nat);
        }
        return None;
    };
    if e1 >= len || s.get_char(e1) != ' ' {
        return None;
    }
    let ustart = e1 + 1;
    if ulen > (len - ustart) as u64 {
        return None;
    }
    let ulen_us = ulen as usize;
    let username = String::from_str(s.substring_char(ustart, ustart + ulen_us));
    let i2 = ustart + ulen_us;
    if !match_lit(s, len, i2, "\nextension ") {
        return None;
    }
    let i3 = i2 + "\nextension ".unicode_len();
    let Some((xlen, e2)) = scan_dec(s, i3, len) else {
        proof {
            lemma_run_end(s@, i3 as int);
            lemma_big_run_rejects(s@, i3 as int, len as nat);
        }
        return None;
    };
    if e2 >= len || s.get_char(e2) != ' ' {
        return None;
    }
    let xstart = e2 + 1;
    if xlen > (len - xstart) as u64 {
        return None;
    }
    let xlen_us = xlen as usize;
    let file_ext = String::from_str(s.substring_char(xstart, xstart + xlen_us));
    let i4 = xstart + xlen_us;
    if !match_lit(s, len, i4, "\nsize ") {
        return None;
    }
    let i5 = i4 + "\nsize ".unicode_len();
    let Some((size, e3)) = scan_dec(s, i5, len) else {
        return None;
    };
    if e3 >= len || e3 + 1 != len || s.get_char(e3) != '\n' {
        return None;
    }
    Some((Metadata { username, file_ext }, size))
}

/// Parsing the rendering of any fields yields those fields back.
pub proof fn lemma_meta_round_trip(u: Seq<char>, x: Seq<char>, size: nat)
    requires
        size <= u64::MAX,
    ensures
        parse_meta_chars(encode_meta_chars(u, x, size)) == Some((u, x, size)),
{
    reveal_strlit("username ");
    reveal_strlit("\nextension ");
    reveal_strlit("\nsize ");
    reveal_strlit(" ");
    reveal_strlit("\n");
    let l1 = "username "@;
    let l2 = "\nextension "@;
    let l3 = "\nsize "@;
    let sp = " "@;
    let nl = "\n"@;
    let du = dec_digits(u.len());
    let dx = dec_digits(x.len());
    let ds = dec_digits(size);
    lemma_dec_digits_wf(u.len());
    lemma_dec_digits_wf(x.len());
    lemma_dec_digits_wf(size);
    let s = encode_meta_chars(u, x, size);
    assert(s.len() == 9 + du.len() + 1 + u.len() + 11 + dx.len() + 1 + x.len() + 6 + ds.len()
        + 1);
    // The leading label.
    assert(s.subrange(0, 9) =~= l1);
    // The username length field and its trailing space.
    let i1: int = 9;
    let e1 = i1 + du.len() as int;
    assert forall|j: int| i1 <= j < e1 implies is_dec_char(#[trigger] s[j]) by {
        assert(s[j] == du[j - i1]);
    }
    assert(s[e1] == ' ');
    lemma_run_end_concrete(s, i1, e1);
    assert(s.subrange(i1, e1) =~= du);
    // The username itself.
    let ustart = e1 + 1;
    assert(s.subrange(ustart, ustart + u.len() as int) =~= u);
    // The extension label, length field, space, and the extension.
    let i2 = ustart + u.len() as int;
    assert(s.subrange(i2, i2 + 11) =~= l2);
    let i3 = i2 + 11;
    let e2 = i3 + dx.len() as int;
    assert forall|j: int| i3 <= j < e2 implies is_dec_char(#[trigger] s[j]) by {
        assert(s[j] == dx[j - i3]);
    }
    assert(s[e2] == ' ');
    lemma_run_end_concrete(s, i3, e2);
    assert(s.subrange(i3, e2) =~= dx);
    let xstart = e2 + 1;
    assert(s.subrange(xstart, xstart + x.len() as int) =~= x);
    // The size label, the size, and the final newline.
    let i4 = xstart + x.len() as int;
    assert(s.subrange(i4, i4 + 6) =~= l3);
    let i5 = i4 + 6;
    let e3 = i5 + ds.len() as int;
    assert forall|j: int| i5 <= j < e3 implies is_dec_char(#[trigger] s[j]) by {
        assert(s[j] == ds[j - i5]);
    }
    assert(s[e3] == '\n');
    lemma_run_end_concrete(s, i5, e3);
    assert(s.subrange(i5, e3) =~= ds);
    assert(e3 + 1 == s.len());
}

} // verus!
