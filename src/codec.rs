//! Byte encodings of tokens: big-endian integers, length-prefixed fields,
//! and lower-case hexadecimal text.
use vstd::prelude::*;
use vstd::utf8::{encode_utf8, is_ascii_chars, is_ascii_chars_encode_utf8, valid_utf8};

verus! {

/// The eight big-endian bytes of `v`.
pub open spec fn u64_bytes(v: u64) -> Seq<u8> {
    seq![
        (v >> 56) as u8,
        (v >> 48) as u8,
        (v >> 40) as u8,
        (v >> 32) as u8,
        (v >> 24) as u8,
        (v >> 16) as u8,
        (v >> 8) as u8,
        v as u8,
    ]
}

/// The integer that eight big-endian bytes encode.
#[verifier::opaque]
pub open spec fn u64_of(b: Seq<u8>) -> u64 {
    ((b[0] as u64) << 56) | ((b[1] as u64) << 48) | ((b[2] as u64) << 40) | ((b[3] as u64) << 32) | ((
    b[4] as u64) << 24) | ((b[5] as u64) << 16) | ((b[6] as u64) << 8) | (b[7] as u64)
}

/// The four big-endian bytes of `v`.
pub open spec fn u32_bytes(v: u32) -> Seq<u8> {
    seq![(v >> 24) as u8, (v >> 16) as u8, (v >> 8) as u8, v as u8]
}

/// The integer that four big-endian bytes encode.
#[verifier::opaque]
pub open spec fn u32_of(b: Seq<u8>) -> u32 {
    ((b[0] as u32) << 24) | ((b[1] as u32) << 16) | ((b[2] as u32) << 8) | (b[3] as u32)
}

pub proof fn lemma_u64_round_trip(v: u64)
    ensures
        u64_bytes(v).len() == 8,
        u64_of(u64_bytes(v)) == v,
{
    reveal(u64_of);
    let b = u64_bytes(v);
    let (b0, b1, b2, b3, b4, b5, b6, b7) = (b[0], b[1], b[2], b[3], b[4], b[5], b[6], b[7]);
    assert(b0 == (v >> 56) as u8 && b1 == (v >> 48) as u8 && b2 == (v >> 40) as u8 && b3 == (v
        >> 32) as u8 && b4 == (v >> 24) as u8 && b5 == (v >> 16) as u8 && b6 == (v >> 8) as u8 && b7
        == v as u8);
    assert(((b0 as u64) << 56) | ((b1 as u64) << 48) | ((b2 as u64) << 40) | ((b3 as u64) << 32) | ((
    b4 as u64) << 24) | ((b5 as u64) << 16) | ((b6 as u64) << 8) | (b7 as u64) == v) by (bit_vector)
        requires
            b0 == (v >> 56) as u8 && b1 == (v >> 48) as u8 && b2 == (v >> 40) as u8 && b3 == (v
                >> 32) as u8 && b4 == (v >> 24) as u8 && b5 == (v >> 16) as u8 && b6 == (v >> 8) as u8
                && b7 == v as u8,
    ;
}

pub proof fn lemma_u32_round_trip(v: u32)
    ensures
        u32_bytes(v).len() == 4,
        u32_of(u32_bytes(v)) == v,
{
    reveal(u32_of);
    let b = u32_bytes(v);
    let (b0, b1, b2, b3) = (b[0], b[1], b[2], b[3]);
    assert(b0 == (v >> 24) as u8 && b1 == (v >> 16) as u8 && b2 == (v >> 8) as u8 && b3 == v as u8);
    assert(((b0 as u32) << 24) | ((b1 as u32) << 16) | ((b2 as u32) << 8) | (b3 as u32) == v) by (bit_vector)
        requires
            b0 == (v >> 24) as u8 && b1 == (v >> 16) as u8 && b2 == (v >> 8) as u8 && b3 == v as u8,
    ;
}

pub fn u64_to_bytes(v: u64) -> (r: Vec<u8>)
    ensures
        r@ == u64_bytes(v),
{
    let r = vec![
        (v >> 56) as u8,
        (v >> 48) as u8,
        (v >> 40) as u8,
        (v >> 32) as u8,
        (v >> 24) as u8,
        (v >> 16) as u8,
        (v >> 8) as u8,
        v as u8,
    ];
    assert(r@ =~= u64_bytes(v));
    r
}

pub fn u64_from_bytes(b: &[u8]) -> (r: u64)
    requires
        b@.len() == 8,
    ensures
        r == u64_of(b@),
{
    reveal(u64_of);
    ((b[0] as u64) << 56) | ((b[1] as u64) << 48) | ((b[2] as u64) << 40) | ((b[3] as u64) << 32) | ((
    b[4] as u64) << 24) | ((b[5] as u64) << 16) | ((b[6] as u64) << 8) | (b[7] as u64)
}

fn u32_from_bytes(b: &[u8], at: usize) -> (r: u32)
    requires
        at + 4 <= b@.len(),
    ensures
        r == u32_of(b@.subrange(at as int, at + 4)),
{
    reveal(u32_of);
    ((b[at] as u32) << 24) | ((b[at + 1] as u32) << 16) | ((b[at + 2] as u32) << 8) | (b[at + 3] as u32)
}

/// Each field behind its four-byte length.
pub open spec fn frame(fields: Seq<Seq<u8>>) -> Seq<u8>
    decreases fields.len(),
{
    if fields.len() == 0 {
        Seq::empty()
    } else {
        u32_bytes(fields[0].len() as u32) + fields[0] + frame(fields.drop_first())
    }
}

/// The fields that `b` frames, if it is a sequence of length-prefixed fields.
pub open spec fn unframe(b: Seq<u8>) -> Option<Seq<Seq<u8>>>
    decreases b.len(),
{
    if b.len() == 0 {
        Some(Seq::empty())
    } else if b.len() < 4 {
        None
    } else {
        let n = u32_of(b) as int;
        if 4 + n > b.len() {
            None
        } else {
            match unframe(b.subrange(4 + n, b.len() as int)) {
                Some(rest) => Some(seq![b.subrange(4, 4 + n)] + rest),
                None => None,
            }
        }
    }
}

/// Whether every field's length fits in four bytes.
pub open spec fn fields_fit(fields: Seq<Seq<u8>>) -> bool {
    forall|i: int| 0 <= i < fields.len() ==> (#[trigger] fields[i]).len() <= u32::MAX
}

/// Framing is undone by unframing.
pub proof fn lemma_frame_round_trip(fields: Seq<Seq<u8>>)
    requires
        fields_fit(fields),
    ensures
        unframe(frame(fields)) == Some(fields),
    decreases fields.len(),
{
    if fields.len() > 0 {
        let f = fields[0];
        let rest = fields.drop_first();
        assert(fields_fit(rest)) by {
            assert forall|i: int| 0 <= i < rest.len() implies (#[trigger] rest[i]).len() <= u32::MAX by {
                assert(rest[i] == fields[i + 1]);
            }
        }
        lemma_frame_round_trip(rest);
        lemma_u32_round_trip(f.len() as u32);
        let b = frame(fields);
        let h = u32_bytes(f.len() as u32);
        assert(b == h + f + frame(rest));
        assert(b.subrange(0, 4) =~= h);
        assert(u32_of(b) == u32_of(h)) by {
            reveal(u32_of);
        }
        assert(b.subrange(4, 4 + f.len() as int) =~= f);
        assert(b.subrange(4 + f.len() as int, b.len() as int) =~= frame(rest));
        assert(seq![f] + rest =~= fields);
    }
}

/// Splits `b` into the fields it frames.
pub fn unframe_fields(b: &[u8]) -> (r: Option<Vec<Vec<u8>>>)
    ensures
        match unframe(b@) {
            Some(fs) => r matches Some(v) && v@.len() == fs.len() && forall|i: int|
                0 <= i < fs.len() ==> (#[trigger] v@[i])@ == fs[i],
            None => r is None,
        },
{
    let mut fields: Vec<Vec<u8>> = Vec::new();
    let blen = b.len();
    let mut pos: usize = 0;
    let ghost mut parsed: Seq<Seq<u8>> = Seq::empty();
    assert(b@.subrange(0, b@.len() as int) =~= b@);
    while pos < b.len()
        invariant
            0 <= pos <= b@.len(),
            blen == b@.len(),
            fields@.len() == parsed.len(),
            forall|i: int| 0 <= i < parsed.len() ==> (#[trigger] fields@[i])@ == parsed[i],
            unframe(b@) == match unframe(b@.subrange(pos as int, b@.len() as int)) {
                Some(rest) => Some(parsed + rest),
                None => None,
            },
        decreases b@.len() - pos,
    {
        let ghost tail = b@.subrange(pos as int, b@.len() as int);
        if b.len() - pos < 4 {
            return None;
        }
        let n = u32_from_bytes(b, pos) as usize;
        assert(b@.subrange(pos as int, pos + 4) =~= tail.subrange(0, 4));
        assert(u32_of(tail) == u32_of(tail.subrange(0, 4))) by {
            reveal(u32_of);
        }
        if n > b.len() - pos - 4 {
            return None;
        }
        let mut field: Vec<u8> = Vec::with_capacity(n);
        let start = pos + 4;
        let mut k: usize = 0;
        while k < n
            invariant
                0 <= k <= n,
                start == pos + 4,
                blen == b@.len(),
                start + n <= b@.len(),
                field@ == b@.subrange(pos + 4, pos + 4 + k),
            decreases n - k,
        {
            field.push(b[start + k]);
            k = k + 1;
            assert(field@ =~= b@.subrange(pos + 4, pos + 4 + k));
        }
        proof {
            assert(tail.subrange(4, 4 + n) =~= field@);
            assert(tail.subrange(4 + n, tail.len() as int) =~= b@.subrange(pos + 4 + n, b@.len() as int));
            let old_parsed = parsed;
            parsed = parsed.push(field@);
            match unframe(b@.subrange(pos + 4 + n, b@.len() as int)) {
                Some(rest) => {
                    assert(old_parsed + (seq![field@] + rest) =~= parsed + rest);
                },
                None => {},
            }
        }
        fields.push(field);
        pos = pos + 4 + n;
    }
    assert(b@.subrange(pos as int, b@.len() as int) =~= Seq::<u8>::empty());
    assert(parsed + Seq::<Seq<u8>>::empty() =~= parsed);
    Some(fields)
}

/// Frames `fields`.
pub fn frame_fields(fields: &Vec<Vec<u8>>) -> (r: Vec<u8>)
    requires
        fields_fit(fields@.map_values(|f: Vec<u8>| f@)),
    ensures
        r@ == frame(fields@.map_values(|f: Vec<u8>| f@)),
{
    let ghost fs = fields@.map_values(|f: Vec<u8>| f@);
    let mut out: Vec<u8> = Vec::new();
    let mut i: usize = fields.len();
    let mut acc: Vec<u8> = Vec::new();
    while i > 0
        invariant
            0 <= i <= fields@.len(),
            fs == fields@.map_values(|f: Vec<u8>| f@),
            fields_fit(fs),
            acc@ == frame(fs.subrange(i as int, fs.len() as int)),
        decreases i,
    {
        i = i - 1;
        let f = &fields[i];
        assert(fs[i as int] == f@);
        let n = f.len() as u32;
        let mut piece = vec![(n >> 24) as u8, (n >> 16) as u8, (n >> 8) as u8, n as u8];
        assert(piece@ =~= u32_bytes(n));
        let mut k: usize = 0;
        while k < f.len()
            invariant
                0 <= k <= f@.len(),
                piece@ == u32_bytes(n) + f@.subrange(0, k as int),
            decreases f@.len() - k,
        {
            piece.push(f[k]);
            k = k + 1;
            assert(piece@ =~= u32_bytes(n) + f@.subrange(0, k as int));
        }
        let mut m: usize = 0;
        while m < acc.len()
            invariant
                0 <= m <= acc@.len(),
                piece@ == u32_bytes(n) + f@ + acc@.subrange(0, m as int),
            decreases acc@.len() - m,
        {
            piece.push(acc[m]);
            m = m + 1;
            assert(piece@ =~= u32_bytes(n) + f@ + acc@.subrange(0, m as int));
        }
        proof {
            let sub = fs.subrange(i as int, fs.len() as int);
            assert(sub.drop_first() =~= fs.subrange(i + 1, fs.len() as int));
            assert(sub[0] == f@);
            assert(acc@.subrange(0, acc@.len() as int) =~= acc@);
            assert(f@.subrange(0, f@.len() as int) =~= f@);
        }
        acc = piece;
    }
    assert(fs.subrange(0, fs.len() as int) =~= fs);
    out = acc;
    out
}

/// The ASCII code of hexadecimal digit `n` (lower case).
pub open spec fn hex_digit(n: u8) -> u8 {
    if n < 10 {
        (48 + n) as u8
    } else {
        (87 + n) as u8
    }
}

/// The value of an ASCII hexadecimal digit (lower case).
pub open spec fn hex_value(c: u8) -> Option<u8> {
    if 48 <= c <= 57 {
        Some((c - 48) as u8)
    } else if 97 <= c <= 102 {
        Some((c - 87) as u8)
    } else {
        None
    }
}

/// The lower-case hexadecimal text of `b`, as ASCII bytes.
pub open spec fn hex_bytes(b: Seq<u8>) -> Seq<u8> {
    Seq::new(
        2 * b.len(),
        |i: int|
            if i % 2 == 0 {
                hex_digit(b[i / 2] / 16)
            } else {
                hex_digit(b[i / 2] % 16)
            },
    )
}

/// The bytes that a hexadecimal text encodes, if it is one.
pub open spec fn unhex(h: Seq<u8>) -> Option<Seq<u8>> {
    if h.len() % 2 == 0 && forall|i: int| 0 <= i < h.len() ==> (#[trigger] hex_value(h[i])) is Some {
        Some(
            Seq::new(
                (h.len() / 2) as nat,
                |i: int| (hex_value(h[2 * i])->0 * 16 + hex_value(h[2 * i + 1])->0) as u8,
            ),
        )
    } else {
        None
    }
}

/// Hexadecimal text is undone by reading it back.
pub proof fn lemma_hex_round_trip(b: Seq<u8>)
    ensures
        unhex(hex_bytes(b)) == Some(b),
{
    let h = hex_bytes(b);
    assert forall|i: int| 0 <= i < h.len() implies (#[trigger] hex_value(h[i])) is Some by {
        let x = b[i / 2];
        assert(x / 16 < 16 && x % 16 < 16);
    }
    let r = unhex(h)->0;
    assert forall|i: int| 0 <= i < b.len() implies r[i] == b[i] by {
        let x = b[i];
        assert((2 * i) / 2 == i && (2 * i) % 2 == 0);
        assert((2 * i + 1) / 2 == i && (2 * i + 1) % 2 == 1);
        assert(h[2 * i] == hex_digit(x / 16));
        assert(h[2 * i + 1] == hex_digit(x % 16));
        assert(x / 16 * 16 + x % 16 == x);
    }
    assert(r =~= b);
}

/// The characters of ASCII bytes.
pub open spec fn ascii_chars(b: Seq<u8>) -> Seq<char> {
    Seq::new(b.len(), |i: int| b[i] as char)
}

pub proof fn lemma_ascii_bytes_utf8(b: Seq<u8>)
    requires
        forall|i: int| 0 <= i < b.len() ==> #[trigger] b[i] < 128,
    ensures
        encode_utf8(ascii_chars(b)) == b,
{
    let c = ascii_chars(b);
    assert forall|i: int| 0 <= i < c.len() implies '\0' <= #[trigger] c[i] <= '\u{7f}' by {
        assert(b[i] < 128);
    }
    assert(is_ascii_chars(c));
    is_ascii_chars_encode_utf8(c);
    assert forall|i: int| 0 <= i < b.len() implies encode_utf8(c)[i] == b[i] by {
        assert(c[i] as u8 == encode_utf8(c)[i]);
        assert(b[i] < 128);
    }
    assert(encode_utf8(c) =~= b);
}

/// UTF-8 encodes a concatenation piecewise.
pub proof fn lemma_utf8_concat(a: Seq<char>, b: Seq<char>)
    ensures
        encode_utf8(a + b) == encode_utf8(a) + encode_utf8(b),
    decreases a.len(),
{
    if a.len() == 0 {
        assert(a + b =~= b);
        assert(encode_utf8(a) + encode_utf8(b) =~= encode_utf8(b));
    } else {
        lemma_utf8_concat(a.drop_first(), b);
        assert((a + b).drop_first() =~= a.drop_first() + b);
        assert((a + b)[0] == a[0]);
        assert(encode_utf8(a + b) =~= encode_utf8(a) + encode_utf8(b));
    }
}

/// Writes `b` as lower-case hexadecimal text.
pub fn to_hex(b: &[u8]) -> (r: Vec<u8>)
    ensures
        r@ == hex_bytes(b@),
        forall|i: int| 0 <= i < r@.len() ==> #[trigger] r@[i] < 128,
{
    let mut r: Vec<u8> = Vec::new();
    let mut i: usize = 0;
    while i < b.len()
        invariant
            0 <= i <= b@.len(),
            r@ == hex_bytes(b@.subrange(0, i as int)),
        decreases b@.len() - i,
    {
        let x = b[i];
        let hi = x / 16;
        let lo = x % 16;
        r.push(if hi < 10 { 48 + hi } else { 87 + hi });
        r.push(if lo < 10 { 48 + lo } else { 87 + lo });
        proof {
            let s = b@.subrange(0, i + 1);
            assert forall|k: int| 0 <= k < 2 * s.len() implies r@[k] == hex_bytes(s)[k] by {
                assert(k / 2 < s.len());
                if k < 2 * i {
                    assert(s[k / 2] == b@.subrange(0, i as int)[k / 2]);
                } else {
                    assert(s[k / 2] == x);
                }
            }
            assert(r@ =~= hex_bytes(s));
        }
        i = i + 1;
    }
    assert(b@.subrange(0, b@.len() as int) =~= b@);
    r
}

fn hex_digit_value(c: u8) -> (r: Option<u8>)
    ensures
        r == hex_value(c),
{
    if 48 <= c && c <= 57 {
        Some(c - 48)
    } else if 97 <= c && c <= 102 {
        Some(c - 87)
    } else {
        None
    }
}

/// Reads lower-case hexadecimal text.
pub fn from_hex(h: &[u8]) -> (r: Option<Vec<u8>>)
    ensures
        match unhex(h@) {
            Some(b) => r matches Some(v) && v@ == b,
            None => r is None,
        },
{
    if h.len() % 2 != 0 {
        return None;
    }
    let n = h.len() / 2;
    let mut r: Vec<u8> = Vec::new();
    let mut i: usize = 0;
    while i < n
        invariant
            0 <= i <= n,
            n * 2 == h@.len(),
            r@.len() == i,
            forall|k: int| 0 <= k < 2 * i ==> (#[trigger] hex_value(h@[k])) is Some,
            forall|k: int|
                0 <= k < i ==> (#[trigger] r@[k]) == (hex_value(h@[2 * k])->0 * 16 + hex_value(
                    h@[2 * k + 1],
                )->0) as u8,
        decreases n - i,
    {
        let hi = hex_digit_value(h[2 * i]);
        let lo = hex_digit_value(h[2 * i + 1]);
        match (hi, lo) {
            (Some(a), Some(c)) => {
                r.push(a * 16 + c);
            },
            _ => {
                assert(!(hex_value(h@[2 * i as int]) is Some && hex_value(h@[2 * i + 1]) is Some));
                return None;
            },
        }
        proof {
            assert forall|k: int| 0 <= k < 2 * (i + 1) implies (#[trigger] hex_value(h@[k])) is Some by {
                if k >= 2 * i {
                    assert(k == 2 * i || k == 2 * i + 1);
                }
            }
        }
        i = i + 1;
    }
    proof {
        let b = unhex(h@)->0;
        assert(r@ =~= b);
    }
    Some(r)
}

pub proof fn lemma_u64_bytes_of(b: Seq<u8>)
    requires
        b.len() == 8,
    ensures
        u64_bytes(u64_of(b)) == b,
{
    reveal(u64_of);
    let (b0, b1, b2, b3, b4, b5, b6, b7) = (b[0], b[1], b[2], b[3], b[4], b[5], b[6], b[7]);
    let v = u64_of(b);
    assert(v == ((b0 as u64) << 56) | ((b1 as u64) << 48) | ((b2 as u64) << 40) | ((b3 as u64) << 32)
        | ((b4 as u64) << 24) | ((b5 as u64) << 16) | ((b6 as u64) << 8) | (b7 as u64));
    assert(b0 == (v >> 56) as u8 && b1 == (v >> 48) as u8 && b2 == (v >> 40) as u8 && b3 == (v >> 32) as u8
        && b4 == (v >> 24) as u8 && b5 == (v >> 16) as u8 && b6 == (v >> 8) as u8 && b7 == v as u8)
        by (bit_vector)
        requires
            v == ((b0 as u64) << 56) | ((b1 as u64) << 48) | ((b2 as u64) << 40) | ((b3 as u64) << 32)
                | ((b4 as u64) << 24) | ((b5 as u64) << 16) | ((b6 as u64) << 8) | (b7 as u64),
    ;
    assert(u64_bytes(v) =~= b);
}

proof fn lemma_u32_bytes_of(b: Seq<u8>)
    requires
        b.len() >= 4,
    ensures
        u32_bytes(u32_of(b)) == b.subrange(0, 4),
{
    reveal(u32_of);
    let (b0, b1, b2, b3) = (b[0], b[1], b[2], b[3]);
    let v = u32_of(b);
    assert(v == ((b0 as u32) << 24) | ((b1 as u32) << 16) | ((b2 as u32) << 8) | (b3 as u32));
    assert(b0 == (v >> 24) as u8 && b1 == (v >> 16) as u8 && b2 == (v >> 8) as u8 && b3 == v as u8)
        by (bit_vector)
        requires
            v == ((b0 as u32) << 24) | ((b1 as u32) << 16) | ((b2 as u32) << 8) | (b3 as u32),
    ;
    assert(u32_bytes(v) =~= b.subrange(0, 4));
}

/// Unframing gives fields that frame back to the same bytes.
pub proof fn lemma_unframe_frames(b: Seq<u8>)
    requires
        unframe(b) is Some,
    ensures
        frame(unframe(b)->0) == b,
        fields_fit(unframe(b)->0),
    decreases b.len(),
{
    if b.len() > 0 {
        let n = u32_of(b) as int;
        let tail = b.subrange(4 + n, b.len() as int);
        lemma_unframe_frames(tail);
        let fs = unframe(b)->0;
        let f = b.subrange(4, 4 + n);
        assert(fs == seq![f] + unframe(tail)->0);
        assert(fs[0] == f);
        assert(fs.drop_first() =~= unframe(tail)->0);
        assert(f.len() == n);
        lemma_u32_bytes_of(b);
        assert(frame(fs) =~= b);
        assert forall|i: int| 0 <= i < fs.len() implies (#[trigger] fs[i]).len() <= u32::MAX by {
            if i > 0 {
                assert(fs[i] == (unframe(tail)->0)[i - 1]);
            }
        }
    }
}

/// Reads a field of eight bytes as a big-endian integer.
pub fn field_u64(f: &Vec<u8>) -> (r: Option<u64>)
    ensures
        r is Some <==> f@.len() == 8,
        r matches Some(v) ==> u64_bytes(v) == f@,
{
    if f.len() == 8 {
        proof {
            lemma_u64_bytes_of(f@);
        }
        Some(u64_from_bytes(f.as_slice()))
    } else {
        None
    }
}

/// A frame is at most four bytes plus the largest field length per field.
pub proof fn lemma_frame_len_bound(fields: Seq<Seq<u8>>)
    requires
        fields_fit(fields),
    ensures
        frame(fields).len() <= fields.len() * (4 + u32::MAX),
    decreases fields.len(),
{
    if fields.len() > 0 {
        let rest = fields.drop_first();
        assert(fields_fit(rest)) by {
            assert forall|i: int| 0 <= i < rest.len() implies (#[trigger] rest[i]).len() <= u32::MAX by {
                assert(rest[i] == fields[i + 1]);
            }
        }
        lemma_frame_len_bound(rest);
        assert(fields[0].len() <= u32::MAX);
        assert(u32_bytes(fields[0].len() as u32).len() == 4);
    }
}

} // verus!
