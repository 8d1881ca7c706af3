//! Percent-encoding of link references.
use vstd::prelude::*;

verus! {

/// The hexadecimal digits, upper case.
pub open spec fn hex_digits() -> Seq<char> {
    seq!['0', '1', '2', '3', '4', '5', '6', '7', '8', '9', 'A', 'B', 'C', 'D', 'E', 'F']
}

/// Whether `c` stands as it is in an encoded reference: printable ASCII other
/// than space, `(`, `)`, `%` and `?`.
pub open spec fn kept_in_reference(c: char) -> bool {
    '!' <= c && c <= '~' && c != '(' && c != ')' && c != '%' && c != '?'
}

/// The bytes of `c` in UTF-8.
pub open spec fn utf8_of(c: char) -> Seq<nat> {
    let v = c as u32 as nat;
    if v < 0x80 {
        seq![v]
    } else if v < 0x800 {
        seq![0xC0 + v / 64, 0x80 + v % 64]
    } else if v < 0x10000 {
        seq![0xE0 + v / 4096, 0x80 + (v / 64) % 64, 0x80 + v % 64]
    } else {
        seq![0xF0 + v / 262144, 0x80 + (v / 4096) % 64, 0x80 + (v / 64) % 64, 0x80 + v % 64]
    }
}

/// The escape of the byte `b`: `%` and two hexadecimal digits.
pub open spec fn escape_of(b: nat) -> Seq<char> {
    seq!['%', hex_digits()[(b / 16) as int], hex_digits()[(b % 16) as int]]
}

/// The escapes of the bytes `bs`, in order.
pub open spec fn escapes_of(bs: Seq<nat>) -> Seq<char>
    decreases bs.len(),
{
    if bs.len() == 0 {
        Seq::empty()
    } else {
        escapes_of(bs.drop_last()) + escape_of(bs.last())
    }
}

/// `c` as it stands in an encoded reference.
pub open spec fn encoded_char(c: char) -> Seq<char> {
    if kept_in_reference(c) {
        seq![c]
    } else {
        escapes_of(utf8_of(c))
    }
}

/// `s` with every character that is not kept replaced by the escapes of its
/// UTF-8 bytes.
pub open spec fn percent_encoded(s: Seq<char>) -> Seq<char>
    decreases s.len(),
{
    if s.len() == 0 {
        Seq::empty()
    } else {
        percent_encoded(s.drop_last()) + encoded_char(s.last())
    }
}

/// Appends the escape of the byte `b` to `out`.
fn push_escape(out: &mut String, b: u32)
    requires
        b < 256,
    ensures
        final(out)@ == old(out)@ + escape_of(b as nat),
{
    let digits = "0123456789ABCDEF";
    proof {
        reveal_strlit("0123456789ABCDEF");
        reveal_strlit("%");
        assert(digits@ =~= hex_digits());
    }
    let hi = (b / 16) as usize;
    let lo = (b % 16) as usize;
    out.append("%");
    out.append(digits.substring_char(hi, hi + 1));
    out.append(digits.substring_char(lo, lo + 1));
    proof {
        assert(digits@.subrange(hi as int, hi + 1) =~= seq![hex_digits()[hi as int]]);
        assert(digits@.subrange(lo as int, lo + 1) =~= seq![hex_digits()[lo as int]]);
        assert(final(out)@ =~= old(out)@ + escape_of(b as nat));
    }
}

/// The UTF-8 bytes of `c`.
fn utf8_bytes(c: char) -> (r: Vec<u32>)
    ensures
        r@.len() == utf8_of(c).len(),
        forall|i: int| 0 <= i < r@.len() ==> #[trigger] r@[i] as nat == utf8_of(c)[i] && r@[i] < 256,
{
    let v = c as u32;
    if v < 0x80 {
        vec![v]
    } else if v < 0x800 {
        vec![0xC0 + v / 64, 0x80 + v % 64]
    } else if v < 0x10000 {
        vec![0xE0 + v / 4096, 0x80 + (v / 64) % 64, 0x80 + v % 64]
    } else {
        assert(v <= 0x10FFFF) by {
            assert(c as u32 <= 0x10FFFF);
        }
        vec![0xF0 + v / 262144, 0x80 + (v / 4096) % 64, 0x80 + (v / 64) % 64, 0x80 + v % 64]
    }
}

/// `s` with every character other than printable ASCII (space, `(`, `)`, `%`
/// and `?` included) replaced by `%` escapes of its UTF-8 bytes.
pub fn percent_encode(s: &str) -> (r: String)
    ensures
        r@ == percent_encoded(s@),
{
    let n = s.unicode_len();
    let mut out = String::new();
    let mut i: usize = 0;
    while i < n
        invariant
            n == s@.len(),
            0 <= i <= n,
            out@ == percent_encoded(s@.subrange(0, i as int)),
        decreases n - i,
    {
        let c = s.get_char(i);
        let ghost before = out@;
        proof {
            assert(s@.subrange(0, i + 1).drop_last() =~= s@.subrange(0, i as int));
            assert(s@.subrange(0, i + 1).last() == c);
        }
        if '!' <= c && c <= '~' && c != '(' && c != ')' && c != '%' && c != '?' {
            out.append(s.substring_char(i, i + 1));
            proof {
                assert(s@.subrange(i as int, i + 1) =~= seq![c]);
            }
        } else {
            let bytes = utf8_bytes(c);
            let ghost bs = utf8_of(c);
            let mut k: usize = 0;
            while k < bytes.len()
                invariant
                    bytes@.len() == bs.len(),
                    forall|j: int| 0 <= j < bytes@.len() ==> #[trigger] bytes@[j] as nat == bs[j] && bytes@[j] < 256,
                    0 <= k <= bytes@.len(),
                    out@ == before + escapes_of(bs.subrange(0, k as int)),
                decreases bytes@.len() - k,
            {
                proof {
                    assert(bs.subrange(0, k + 1).drop_last() =~= bs.subrange(0, k as int));
                    assert(bs.subrange(0, k + 1).last() == bs[k as int]);
                }
                push_escape(&mut out, bytes[k]);
                proof {
                    assert(out@ =~= before + escapes_of(bs.subrange(0, k + 1)));
                }
                k = k + 1;
            }
            proof {
                assert(bs.subrange(0, bs.len() as int) =~= bs);
            }
        }
        i = i + 1;
    }
    proof {
        assert(s@.subrange(0, n as int) =~= s@);
    }
    out
}

} // verus!
