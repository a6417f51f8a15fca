//! Fixed-width text: runs of one character, and padding to a column width.
//!
//! A column width counts characters. The space that a text asks for is its
//! length in bytes of UTF-8, so a text of plain ASCII asks for exactly the
//! columns that it fills.

use vstd::prelude::*;
use vstd::string::*;
use vstd::utf8::{encode_utf8, encode_utf8_decode_utf8};

verus! {

/// The length of a text in bytes of UTF-8.
pub open spec fn byte_len(s: Seq<char>) -> nat {
    encode_utf8(s).len()
}

/// `n` times the character `c`.
pub open spec fn repeated(c: char, n: int) -> Seq<char> {
    Seq::new(
        if n > 0 {
            n as nat
        } else {
            0
        },
        |i: int| c,
    )
}

/// The text, followed by as many spaces as it falls short of `width`.
pub open spec fn padded_end(s: Seq<char>, width: int) -> Seq<char> {
    s + repeated(' ', width - s.len())
}

/// The text, preceded by as many spaces as it falls short of `width`.
pub open spec fn padded_start(s: Seq<char>, width: int) -> Seq<char> {
    repeated(' ', width - s.len()) + s
}

/// The text in the middle of a run of `fill` that is `width` long. Where the
/// fill cannot be halved, the longer half follows the text.
pub open spec fn centered(s: Seq<char>, width: int, fill: char) -> Seq<char> {
    repeated(fill, (width - s.len()) / 2) + s + repeated(fill, (width - s.len() + 1) / 2)
}

/// The length of `s` in bytes.
pub fn byte_length(s: &str) -> (n: usize)
    ensures
        n == byte_len(s@),
{
    s.as_bytes().len()
}

/// Appends `n` times the character `c`.
pub fn push_repeated(out: &mut String, c: char, n: usize)
    ensures
        final(out)@ == old(out)@ + repeated(c, n as int),
{
    let mut k: usize = 0;
    while k < n
        invariant
            k <= n,
            out@ == old(out)@ + repeated(c, k as int),
        decreases n - k,
    {
        out.push(c);
        k = k + 1;
        assert(out@ =~= old(out)@ + repeated(c, k as int));
    }
}

/// Appends `s`, filled up with spaces behind it to `width` characters.
pub fn push_padded_end(out: &mut String, s: &str, width: usize)
    ensures
        final(out)@ == old(out)@ + padded_end(s@, width as int),
{
    let len: usize = s.unicode_len();
    out.append(s);
    if len < width {
        push_repeated(out, ' ', width - len);
    }
    assert(out@ =~= old(out)@ + padded_end(s@, width as int));
}

/// Appends `s`, filled up with spaces before it to `width` characters.
pub fn push_padded_start(out: &mut String, s: &str, width: usize)
    ensures
        final(out)@ == old(out)@ + padded_start(s@, width as int),
{
    let len: usize = s.unicode_len();
    if len < width {
        push_repeated(out, ' ', width - len);
    }
    out.append(s);
    assert(out@ =~= old(out)@ + padded_start(s@, width as int));
}

/// Appends `s` in the middle of a run of `fill` that is `width` long.
pub fn push_centered(out: &mut String, s: &str, width: usize, fill: char)
    ensures
        final(out)@ == old(out)@ + centered(s@, width as int, fill),
{
    let len: usize = s.unicode_len();
    if len < width {
        let gap: usize = width - len;
        let before: usize = gap / 2;
        let after: usize = gap - before;
        push_repeated(out, fill, before);
        out.append(s);
        push_repeated(out, fill, after);
    } else {
        out.append(s);
    }
    assert(out@ =~= old(out)@ + centered(s@, width as int, fill));
}

/// Whether two texts hold the same characters.
pub fn same_text(a: &str, b: &str) -> (r: bool)
    ensures
        r == (a@ == b@),
{
    let x = a.as_bytes();
    let y = b.as_bytes();
    proof {
        encode_utf8_decode_utf8(a@);
        encode_utf8_decode_utf8(b@);
    }
    if x.len() != y.len() {
        return false;
    }
    let mut i: usize = 0;
    while i < x.len()
        invariant
            i <= x.len(),
            x@.len() == y@.len(),
            x@ == encode_utf8(a@),
            y@ == encode_utf8(b@),
            forall|j: int| 0 <= j < i ==> x@[j] == y@[j],
        decreases x.len() - i,
    {
        if x[i] != y[i] {
            return false;
        }
        i = i + 1;
    }
    assert(x@ =~= y@);
    true
}

} // verus!
