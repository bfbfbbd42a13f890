//! Bytes as text, and digests of bytes.

use base64::Engine;
use sha1::Digest;
use vstd::prelude::*;

verus! {

/// The lower-case hexadecimal digit that stands for `n`.
pub open spec fn hex_digit(n: int) -> char {
    if n < 10 {
        (48 + n) as char
    } else {
        (87 + n) as char
    }
}

/// `bytes` in hexadecimal: two lower-case digits for each byte.
pub open spec fn lower_hex(bytes: Seq<u8>) -> Seq<char>
    decreases bytes.len(),
{
    if bytes.len() == 0 {
        Seq::empty()
    } else {
        lower_hex(bytes.drop_last()) + seq![
            hex_digit(bytes.last() as int / 16),
            hex_digit(bytes.last() as int % 16),
        ]
    }
}

/// `hex::encode`: two lower-case hexadecimal digits for each byte.
#[verifier::external_body]
pub(crate) fn hex_of(bytes: &[u8]) -> (r: String)
    ensures
        r@ == lower_hex(bytes@),
{
    hex::encode(bytes)
}

fn lower_digit(n: u8) -> (r: char)
    requires
        n < 16,
    ensures
        r == hex_digit(n as int),
{
    if n < 10 {
        (48 + n) as char
    } else {
        (87 + n) as char
    }
}

/// The bytes of `s` in hexadecimal.
pub fn hex_encode(s: &str) -> (r: String)
    ensures
        r@ == lower_hex(vstd::utf8::encode_utf8(s@)),
{
    let bytes = s.as_bytes();
    let mut r = String::new();
    let mut i: usize = 0;
    assert(bytes@.take(0) =~= Seq::empty());
    while i < bytes.len()
        invariant
            i <= bytes@.len(),
            r@ == lower_hex(bytes@.take(i as int)),
        decreases bytes@.len() - i,
    {
        let ghost before = r@;
        r.push(lower_digit(bytes[i] / 16));
        r.push(lower_digit(bytes[i] % 16));
        i += 1;
        assert(bytes@.take(i as int).drop_last() =~= bytes@.take(i - 1));
        assert(r@ =~= lower_hex(bytes@.take(i as int)));
    }
    assert(bytes@.take(i as int) =~= bytes@);
    r
}

/// Different bytes have different hexadecimal forms.
pub proof fn lemma_lower_hex_injective(a: Seq<u8>, b: Seq<u8>)
    requires
        lower_hex(a) == lower_hex(b),
    ensures
        a == b,
    decreases a.len(),
{
    lemma_lower_hex_len(a);
    lemma_lower_hex_len(b);
    if a.len() > 0 {
        let n = lower_hex(a).len();
        lemma_lower_hex_len(a.drop_last());
        lemma_lower_hex_len(b.drop_last());
        assert(lower_hex(a)[n - 2] == hex_digit(a.last() as int / 16));
        assert(lower_hex(b)[n - 2] == hex_digit(b.last() as int / 16));
        assert(lower_hex(a)[n - 1] == hex_digit(a.last() as int % 16));
        assert(lower_hex(b)[n - 1] == hex_digit(b.last() as int % 16));
        assert(hex_digit(a.last() as int / 16) as u32 == hex_digit(b.last() as int / 16) as u32);
        assert(hex_digit(a.last() as int % 16) as u32 == hex_digit(b.last() as int % 16) as u32);
        assert(lower_hex(a).take(n - 2) =~= lower_hex(a.drop_last()));
        assert(lower_hex(b).take(n - 2) =~= lower_hex(b.drop_last()));
        lemma_lower_hex_injective(a.drop_last(), b.drop_last());
        assert(a =~= a.drop_last().push(a.last()));
        assert(b =~= b.drop_last().push(b.last()));
    } else {
        assert(a =~= b);
    }
}

proof fn lemma_lower_hex_len(bytes: Seq<u8>)
    ensures
        lower_hex(bytes).len() == 2 * bytes.len(),
    decreases bytes.len(),
{
    if bytes.len() > 0 {
        lemma_lower_hex_len(bytes.drop_last());
    }
}

/// Each byte has two digits, which are lower-case hexadecimal ones.
pub proof fn lemma_lower_hex_digits(bytes: Seq<u8>)
    ensures
        lower_hex(bytes).len() == 2 * bytes.len(),
        forall|i: int|
            0 <= i < lower_hex(bytes).len() ==> {
                ||| '0' <= #[trigger] lower_hex(bytes)[i] <= '9'
                ||| 'a' <= lower_hex(bytes)[i] <= 'f'
            },
    decreases bytes.len(),
{
    lemma_lower_hex_len(bytes);
    if bytes.len() > 0 {
        let earlier = lower_hex(bytes.drop_last());
        lemma_lower_hex_digits(bytes.drop_last());
        assert forall|i: int| 0 <= i < lower_hex(bytes).len() implies {
            ||| '0' <= #[trigger] lower_hex(bytes)[i] <= '9'
            ||| 'a' <= lower_hex(bytes)[i] <= 'f'
        } by {
            if i < earlier.len() {
                assert(lower_hex(bytes)[i] == earlier[i]);
            }
        }
    }
}

/// The hexadecimal form of bytes one after the other is that of the first, followed by that of the
/// second.
pub proof fn lemma_lower_hex_concat(a: Seq<u8>, b: Seq<u8>)
    ensures
        lower_hex(a + b) == lower_hex(a) + lower_hex(b),
    decreases b.len(),
{
    if b.len() == 0 {
        assert(a + b =~= a);
        assert(lower_hex(a) + lower_hex(b) =~= lower_hex(a));
    } else {
        assert((a + b).drop_last() =~= a + b.drop_last());
        assert((a + b).last() == b.last());
        lemma_lower_hex_concat(a, b.drop_last());
        assert(lower_hex(a + b) =~= lower_hex(a) + lower_hex(b));
    }
}

/// The SHA-1 digest of `bytes`.
pub uninterp spec fn sha1_digest(bytes: Seq<u8>) -> Seq<u8>;

/// `sha1::Sha1::digest`: the SHA-1 digest, twenty bytes, under the name `sha1_digest`.
#[verifier::external_body]
pub(crate) fn sha1_of(bytes: &[u8]) -> (r: Vec<u8>)
    ensures
        r@ == sha1_digest(bytes@),
        r@.len() == 20,
{
    sha1::Sha1::digest(bytes).to_vec()
}

/// The digit of the standard base64 alphabet that stands for `n`.
pub open spec fn base64_digit(n: int) -> char {
    if n < 26 {
        (65 + n) as char
    } else if n < 52 {
        (71 + n) as char
    } else if n < 62 {
        (n - 4) as char
    } else if n == 62 {
        '+'
    } else {
        '/'
    }
}

/// `bytes` in base64, with the standard alphabet and with padding: four digits for each three
/// bytes.
pub open spec fn base64_text(bytes: Seq<u8>) -> Seq<char>
    decreases bytes.len(),
{
    if bytes.len() == 0 {
        Seq::empty()
    } else {
        let a = bytes[0] as int;
        let b = if bytes.len() > 1 {
            bytes[1] as int
        } else {
            0
        };
        let c = if bytes.len() > 2 {
            bytes[2] as int
        } else {
            0
        };
        let digits = seq![
            base64_digit(a / 4),
            base64_digit(a % 4 * 16 + b / 16),
            base64_digit(b % 16 * 4 + c / 64),
            base64_digit(c % 64),
        ];
        if bytes.len() == 1 {
            digits.update(2, '=').update(3, '=')
        } else if bytes.len() == 2 {
            digits.update(3, '=')
        } else {
            digits + base64_text(bytes.skip(3))
        }
    }
}

proof fn lemma_base64_digit(m: int, n: int)
    requires
        0 <= m < 64,
        0 <= n < 64,
    ensures
        base64_digit(m) == base64_digit(n) ==> m == n,
        base64_digit(m) != '=',
{
    assert(base64_digit(m) as int == if m < 26 {
        65 + m
    } else if m < 52 {
        71 + m
    } else if m < 62 {
        m - 4
    } else if m == 62 {
        43
    } else {
        47
    });
    assert(base64_digit(n) as int == if n < 26 {
        65 + n
    } else if n < 52 {
        71 + n
    } else if n < 62 {
        n - 4
    } else if n == 62 {
        43
    } else {
        47
    });
}

/// The three bytes that four digits stand for, of which those beyond the end of `bytes` are zero.
spec fn group(bytes: Seq<u8>) -> (int, int, int) {
    (
        bytes[0] as int,
        if bytes.len() > 1 {
            bytes[1] as int
        } else {
            0
        },
        if bytes.len() > 2 {
            bytes[2] as int
        } else {
            0
        },
    )
}

/// Different bytes have different base64 forms.
pub proof fn lemma_base64_injective(x: Seq<u8>, y: Seq<u8>)
    requires
        base64_text(x) == base64_text(y),
    ensures
        x == y,
    decreases x.len(),
{
    let s = base64_text(x);
    let t = base64_text(y);
    if x.len() == 0 || y.len() == 0 {
        assert(x.len() > 0 ==> s.len() >= 4);
        assert(y.len() > 0 ==> t.len() >= 4);
        assert(x =~= y);
    } else {
        let (a, b, c) = group(x);
        let (d, e, f) = group(y);
        lemma_base64_digit(a / 4, d / 4);
        lemma_base64_digit(a % 4 * 16 + b / 16, d % 4 * 16 + e / 16);
        lemma_base64_digit(b % 16 * 4 + c / 64, e % 16 * 4 + f / 64);
        lemma_base64_digit(c % 64, f % 64);
        lemma_base64_digit(e % 16 * 4 + f / 64, b % 16 * 4 + c / 64);
        lemma_base64_digit(f % 64, c % 64);
        assert(s[0] == base64_digit(a / 4) && t[0] == base64_digit(d / 4));
        assert(s[1] == base64_digit(a % 4 * 16 + b / 16) && t[1] == base64_digit(
            d % 4 * 16 + e / 16,
        ));
        assert(x.len() == 1 <==> s[2] == '=');
        assert(y.len() == 1 <==> t[2] == '=');
        assert(x.len() <= 2 <==> s[3] == '=');
        assert(y.len() <= 2 <==> t[3] == '=');
        if x.len() >= 3 {
            assert(s.skip(4) =~= base64_text(x.skip(3)));
            assert(t.skip(4) =~= base64_text(y.skip(3)));
            lemma_base64_injective(x.skip(3), y.skip(3));
            assert(x =~= x.take(3) + x.skip(3));
            assert(y =~= y.take(3) + y.skip(3));
            assert(x.take(3) =~= y.take(3));
        } else {
            assert(x =~= y);
        }
    }
}

/// What the base64 decoder says of a text that it does not take.
pub uninterp spec fn base64_complaint(encoded: Seq<char>) -> Seq<char>;

/// `encode` of `base64::engine::general_purpose::STANDARD`: the base64 form of `bytes`, with the
/// standard alphabet and with padding.
#[verifier::external_body]
pub(crate) fn base64_of(bytes: &[u8]) -> (r: String)
    ensures
        r@ == base64_text(bytes@),
{
    base64::engine::general_purpose::STANDARD.encode(bytes)
}

/// `decode` of `base64::engine::general_purpose::STANDARD`: the bytes whose base64 form is
/// `encoded`, or, where no bytes have that form, the text of the error, under the name
/// `base64_complaint`.
#[verifier::external_body]
pub(crate) fn bytes_of_base64(encoded: &str) -> (r: Result<Vec<u8>, String>)
    ensures
        (match r {
            Ok(bytes) => encoded@ == base64_text(bytes@),
            Err(complaint) => complaint@ == base64_complaint(encoded@) && forall|bytes: Seq<u8>|
                encoded@ != #[trigger] base64_text(bytes),
        }),
{
    base64::engine::general_purpose::STANDARD.decode(encoded).map_err(|error| error.to_string())
}

/// A byte is shown by two digits, the first for its sixteens and the second for its ones: `0` to `9`, then
/// `a` to `f`.
pub proof fn lemma_lower_hex_byte(byte: u8)
    ensures
        ({
            let shown = lower_hex(seq![byte]);
            let high = byte / 16;
            let low = byte % 16;
            &&& shown.len() == 2
            &&& shown[0] as u32 == if high < 10 {
                48 + high
            } else {
                87 + high
            }
            &&& shown[1] as u32 == if low < 10 {
                48 + low
            } else {
                87 + low
            }
        }),
{
    let one = seq![byte];
    assert(one.drop_last() =~= Seq::empty());
    assert(lower_hex(one.drop_last()) =~= Seq::empty());
    assert(one.last() == byte);
    let high = (byte / 16) as u32;
    let low = (byte % 16) as u32;
    let a: u32 = if high < 10 {
        (48 + high) as u32
    } else {
        (87 + high) as u32
    };
    let b: u32 = if low < 10 {
        (48 + low) as u32
    } else {
        (87 + low) as u32
    };
    assert((a as char) as u32 == a);
    assert((b as char) as u32 == b);
    assert(hex_digit(byte as int / 16) == a as char);
    assert(hex_digit(byte as int % 16) == b as char);
}

} // verus!
