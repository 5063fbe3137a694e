//! Names and C strings as bytes.

use vstd::prelude::*;
use vstd::utf8::{decode_utf8, encode_utf8, valid_utf8};

verus! {

/// Calls [`core::str::from_utf8`].
///
/// Trusted: it succeeds exactly on valid UTF-8, and the text it returns is made
/// of the given bytes.
#[verifier::external_body]
pub(crate) fn utf8_text(bytes: &[u8]) -> (r: Option<&str>)
    ensures
        match r {
            Some(s) => valid_utf8(bytes@) && encode_utf8(s@) == bytes@,
            None => !valid_utf8(bytes@),
        },
{
    core::str::from_utf8(bytes).ok()
}

/// The bytes in front of the first NUL, or all of them.
pub open spec fn until_nul(s: Seq<u8>) -> Seq<u8>
    decreases s.len(),
{
    if s.len() == 0 || s[0] == 0 {
        Seq::empty()
    } else {
        seq![s[0]] + until_nul(s.drop_first())
    }
}

/// `n` bytes without a NUL, at the end of the bytes or in front of one.
pub open spec fn nul_at(s: Seq<u8>, n: int) -> bool {
    &&& 0 <= n <= s.len()
    &&& forall|k: int| 0 <= k < n ==> #[trigger] s[k] != 0
    &&& n == s.len() || s[n] == 0
}

pub proof fn lemma_until_nul(s: Seq<u8>, n: int)
    requires
        nul_at(s, n),
    ensures
        until_nul(s) == s.take(n),
    decreases s.len(),
{
    if s.len() == 0 || s[0] == 0 {
        assert(n == 0);
        assert(until_nul(s) =~= s.take(n));
    } else {
        let t = s.drop_first();
        assert forall|k: int| 0 <= k < n - 1 implies #[trigger] t[k] != 0 by {
            assert(t[k] == s[k + 1]);
        }
        lemma_until_nul(t, n - 1);
        assert(until_nul(s) =~= s.take(n));
    }
}

/// Number of bytes in front of the first NUL.
pub fn nul_position(s: &[u8]) -> (n: usize)
    ensures
        nul_at(s@, n as int),
        until_nul(s@) == s@.take(n as int),
{
    let mut n: usize = 0;
    while n < s.len() && s[n] != 0
        invariant
            n <= s.len(),
            forall|k: int| 0 <= k < n ==> #[trigger] s@[k] != 0,
        decreases s.len() - n,
    {
        n = n + 1;
    }
    proof {
        lemma_until_nul(s@, n as int);
    }
    n
}

/// The text of a NUL-padded name; `"?"` where the bytes are not UTF-8.
pub open spec fn name_text(name: Seq<u8>) -> Seq<char> {
    if valid_utf8(until_nul(name)) {
        decode_utf8(until_nul(name))
    } else {
        "?"@
    }
}

/// The text of a NUL-padded name.
pub fn name_to_str(name: &[u8]) -> (s: &str)
    ensures
        s@ == name_text(name@),
{
    let n: usize = nul_position(name);
    let head = vstd::slice::slice_subrange(name, 0, n);
    assert(head@ =~= name@.take(n as int));
    match utf8_text(head) {
        Some(s) => {
            proof {
                vstd::utf8::encode_utf8_decode_utf8(s@);
            }
            s
        },
        None => "?",
    }
}

/// `bytes` cut to `n` bytes and padded with NUL bytes.
pub open spec fn padded(bytes: Seq<u8>, n: int, len: int) -> Seq<u8> {
    Seq::new(
        len as nat,
        |i: int|
            if i < n && i < bytes.len() {
                bytes[i]
            } else {
                0u8
            },
    )
}

/// The first `max` bytes of `name` in a 16-byte field.
pub fn name_field(name: &str, max: usize) -> (f: [u8; 16])
    requires
        max <= 16,
    ensures
        f@ == padded(encode_utf8(name@), max as int, 16),
{
    let bytes = name.as_bytes();
    let mut f: [u8; 16] = [0u8;16];
    let mut i: usize = 0;
    while i < max && i < bytes.len()
        invariant
            i <= max <= 16,
            i <= bytes@.len(),
            bytes@ == encode_utf8(name@),
            f@.len() == 16,
            forall|k: int| 0 <= k < 16 ==> #[trigger] f@[k] == if k < i {
                bytes@[k]
            } else {
                0u8
            },
        decreases max - i,
    {
        f[i] = bytes[i];
        i = i + 1;
    }
    assert(f@ =~= padded(encode_utf8(name@), max as int, 16));
    f
}

/// A name of at most `max` bytes without a NUL reads back from its field.
pub proof fn law_name_round_trip(name: Seq<char>, max: int)
    requires
        encode_utf8(name).len() <= max <= 16,
        forall|k: int| 0 <= k < encode_utf8(name).len() ==> #[trigger] encode_utf8(name)[k] != 0,
    ensures
        name_text(padded(encode_utf8(name), max, 16)) == name,
{
    let b = encode_utf8(name);
    let f = padded(b, max, 16);
    assert(nul_at(f, b.len() as int)) by {
        assert forall|k: int| 0 <= k < b.len() implies #[trigger] f[k] != 0 by {
            assert(b[k] != 0);
        }
    }
    lemma_until_nul(f, b.len() as int);
    assert(f.take(b.len() as int) =~= b);
    vstd::utf8::encode_utf8_valid_utf8(name);
    vstd::utf8::encode_utf8_decode_utf8(name);
}

/// The two texts are the same.
pub fn str_eq(a: &str, b: &str) -> (r: bool)
    ensures
        r == (a@ == b@),
{
    let x = a.as_bytes();
    let y = b.as_bytes();
    proof {
        vstd::utf8::encode_utf8_decode_utf8(a@);
        vstd::utf8::encode_utf8_decode_utf8(b@);
    }
    if x.len() != y.len() {
        return false;
    }
    let mut i: usize = 0;
    while i < x.len()
        invariant
            i <= x@.len(),
            x@.len() == y@.len(),
            x@ == encode_utf8(a@),
            y@ == encode_utf8(b@),
            forall|k: int| 0 <= k < i ==> #[trigger] x@[k] == y@[k],
        decreases x.len() - i,
    {
        if x[i] != y[i] {
            return false;
        }
        i = i + 1;
    }
    assert(x@ =~= y@);
    true
}

/// What stands in front of the first NUL is every byte before it, none of which is one.
pub proof fn law_text_ends_at_nul(s: Seq<u8>, n: int, k: int)
    requires
        0 <= n <= s.len(),
        forall|i: int| 0 <= i < n ==> #[trigger] s[i] != 0,
        n < s.len() ==> s[n] == 0,
        0 <= k,
    ensures
        until_nul(s).len() == n,
        k < n ==> until_nul(s)[k] == s[k],
        valid_utf8(s.take(n)) ==> name_text(s) == decode_utf8(s.take(n)),
        !valid_utf8(s.take(n)) ==> name_text(s) == "?"@,
{
    lemma_until_nul(s, n);
}

/// A field holds the first bytes of a text, as many as it may, and zeros behind them.
pub proof fn law_field_is_cut_and_padded(bytes: Seq<u8>, n: int, len: int, k: int)
    requires
        0 <= n <= len,
        0 <= k < len,
    ensures
        padded(bytes, n, len).len() == len,
        k < n && k < bytes.len() ==> padded(bytes, n, len)[k] == bytes[k],
        k >= n || k >= bytes.len() ==> padded(bytes, n, len)[k] == 0,
{
}

} // verus!
