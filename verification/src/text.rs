//! Conversions between Rust strings and the NUL-terminated UTF-16 buffers
//! that the Windows display and process APIs read and write.
use vstd::prelude::*;

verus! {

/// ASCII lowercase of one character.
pub open spec fn ascii_lower_char(c: char) -> char {
    if 0x41 <= (c as u32) && (c as u32) <= 0x5A {
        ((c as u32) + 32) as char
    } else {
        c
    }
}

/// ASCII lowercase of a text: `A`..`Z` become `a`..`z`, all else is kept.
pub open spec fn ascii_lowercase(s: Seq<char>) -> Seq<char> {
    s.map_values(|c: char| ascii_lower_char(c))
}

pub open spec fn is_ascii_text(s: Seq<char>) -> bool {
    forall|i: int| 0 <= i < s.len() ==> (s[i] as u32) < 0x80
}

/// The character that lossy UTF-16 decoding puts in place of a lone surrogate.
pub open spec fn replacement_char() -> char {
    '\u{FFFD}'
}

pub open spec fn is_high_surrogate(u: u16) -> bool {
    0xD800 <= u && u <= 0xDBFF
}

pub open spec fn is_low_surrogate(u: u16) -> bool {
    0xDC00 <= u && u <= 0xDFFF
}

pub open spec fn is_surrogate(u: u16) -> bool {
    0xD800 <= u && u <= 0xDFFF
}

/// A Unicode scalar value: a code point that is not a surrogate.
pub open spec fn is_scalar(x: u32) -> bool {
    x < 0xD800 || (0xE000 <= x && x <= 0x10FFFF)
}

/// The code point that a high and a low surrogate encode together.
pub open spec fn surrogate_pair_code(hi: u16, lo: u16) -> u32 {
    (0x10000 + (hi - 0xD800) * 0x400 + (lo - 0xDC00)) as u32
}

/// Lossy UTF-16 decoding: every well-formed unit or surrogate pair becomes its
/// character, every unpaired surrogate becomes U+FFFD.
pub open spec fn decode_utf16_lossy(units: Seq<u16>) -> Seq<char>
    decreases units.len(),
{
    if units.len() == 0 {
        Seq::empty()
    } else if !is_surrogate(units[0]) {
        seq![(units[0] as u32) as char] + decode_utf16_lossy(units.drop_first())
    } else if is_high_surrogate(units[0]) && units.len() >= 2 && is_low_surrogate(units[1]) {
        seq![surrogate_pair_code(units[0], units[1]) as char] + decode_utf16_lossy(
            units.subrange(2, units.len() as int),
        )
    } else {
        seq![replacement_char()] + decode_utf16_lossy(units.drop_first())
    }
}

/// The UTF-16 code units of one character.
pub open spec fn char_utf16_units(c: char) -> Seq<u16> {
    let x = c as u32;
    if x < 0x10000 {
        seq![x as u16]
    } else {
        seq![
            (0xD800 + (x - 0x10000) / 0x400) as u16,
            (0xDC00 + (x - 0x10000) % 0x400) as u16,
        ]
    }
}

/// UTF-16 encoding of a character sequence.
pub open spec fn encode_utf16(cs: Seq<char>) -> Seq<u16>
    decreases cs.len(),
{
    if cs.len() == 0 {
        Seq::empty()
    } else {
        char_utf16_units(cs[0]) + encode_utf16(cs.drop_first())
    }
}

/// The index of the first NUL unit, or the length when there is none.
pub open spec fn nul_index(units: Seq<u16>) -> nat
    decreases units.len(),
{
    if units.len() == 0 {
        0
    } else if units[0] == 0 {
        0
    } else {
        1 + nul_index(units.drop_first())
    }
}

/// The characters that a NUL-terminated UTF-16 buffer holds.
pub open spec fn wide_buffer_text(units: Seq<u16>) -> Seq<char> {
    decode_utf16_lossy(units.take(nul_index(units) as int))
}

/// The NUL-terminated UTF-16 buffer that holds a text.
pub open spec fn wide_buffer_of(cs: Seq<char>) -> Seq<u16> {
    encode_utf16(cs).push(0u16)
}

/// `char::from_u32`: the character with the given code, when the code is a
/// Unicode scalar value.
#[verifier::external_body]
fn char_from_u32(x: u32) -> (r: Option<char>)
    ensures
        r.is_some() == is_scalar(x),
        r matches Some(c) ==> c as u32 == x,
{
    char::from_u32(x)
}

/// `String::push`: appends one character to the end of the string.
#[verifier::external_body]
pub(crate) fn push_char(s: &mut String, c: char)
    ensures
        final(s)@ == old(s)@.push(c),
{
    s.push(c)
}

/// The characters of a string slice, in order.
pub fn chars_of(s: &str) -> (v: Vec<char>)
    ensures
        v@ == s@,
{
    let mut v: Vec<char> = Vec::new();
    for c in it: s.chars()
        invariant
            v@ == it.seq().take(it.index() as int),
    {
        v.push(c);
    }
    v
}

/// A string with the given characters.
pub fn string_from_chars(cs: &Vec<char>) -> (s: String)
    ensures
        s@ == cs@,
{
    let mut s = String::new();
    let n = cs.len();
    for i in 0..n
        invariant
            n == cs@.len(),
            s@ == cs@.take(i as int),
    {
        push_char(&mut s, cs[i]);
        assert(cs@.take(i + 1) =~= cs@.take(i as int).push(cs@[i as int]));
    }
    assert(cs@.take(n as int) =~= cs@);
    s
}

proof fn lemma_char_of_code(c: char, x: u32)
    requires
        c as u32 == x,
    ensures
        c == x as char,
{
}

proof fn lemma_nul_index(units: Seq<u16>, p: int)
    requires
        0 <= p <= units.len(),
        forall|j: int| 0 <= j < p ==> units[j] != 0,
        p == units.len() || units[p] == 0,
    ensures
        nul_index(units) == p,
    decreases p,
{
    if p > 0 {
        lemma_nul_index(units.drop_first(), p - 1);
    }
}

/// Reads the text of a NUL-terminated UTF-16 buffer: the units before the first
/// NUL (all of them when there is none), decoded lossily.
pub fn u16_to_string(slice: &[u16]) -> (s: String)
    ensures
        s@ == wide_buffer_text(slice@),
{
    let n = slice.len();
    let mut len: usize = 0;
    while len < n && slice[len] != 0
        invariant
            len <= n,
            n == slice@.len(),
            forall|j: int| 0 <= j < len ==> slice@[j] != 0,
        decreases n - len,
    {
        len = len + 1;
    }
    proof {
        lemma_nul_index(slice@, len as int);
    }
    let ghost units = slice@.take(len as int);
    assert(units.subrange(0, len as int) =~= units);
    let mut s = String::new();
    let mut i: usize = 0;
    while i < len
        invariant
            i <= len <= n,
            n == slice@.len(),
            units == slice@.take(len as int),
            s@ + decode_utf16_lossy(units.subrange(i as int, len as int)) == decode_utf16_lossy(units),
        decreases len - i,
    {
        let ghost rest = units.subrange(i as int, len as int);
        let u = slice[i];
        if u < 0xD800 || u > 0xDFFF {
            let c = char_from_u32(u as u32).unwrap();
            assert(rest.drop_first() =~= units.subrange(i + 1, len as int));
            proof {
                lemma_char_of_code(c, u as u32);
            }
            push_char(&mut s, c);
            i = i + 1;
            assert(s@ + decode_utf16_lossy(units.subrange(i as int, len as int)) =~= decode_utf16_lossy(units));
        } else if u <= 0xDBFF && i + 1 < len && 0xDC00 <= slice[i + 1] && slice[i + 1] <= 0xDFFF {
            let lo = slice[i + 1];
            let code: u32 = 0x10000 + ((u - 0xD800) as u32) * 0x400 + ((lo - 0xDC00) as u32);
            assert(code == surrogate_pair_code(u, lo));
            let c = char_from_u32(code).unwrap();
            assert(rest.subrange(2, rest.len() as int) =~= units.subrange(i + 2, len as int));
            assert(rest[0] == u && rest[1] == lo);
            proof {
                lemma_char_of_code(c, code);
            }
            push_char(&mut s, c);
            i = i + 2;
            assert(s@ + decode_utf16_lossy(units.subrange(i as int, len as int)) =~= decode_utf16_lossy(units));
        } else {
            assert(rest.drop_first() =~= units.subrange(i + 1, len as int));
            assert(rest[0] == u);
            push_char(&mut s, '\u{FFFD}');
            i = i + 1;
            assert(s@ + decode_utf16_lossy(units.subrange(i as int, len as int)) =~= decode_utf16_lossy(units));
        }
    }
    assert(units.subrange(len as int, len as int) =~= Seq::<u16>::empty());
    assert(s@ + Seq::<char>::empty() =~= s@);
    s
}

proof fn lemma_encode_append(a: Seq<char>, b: Seq<char>)
    ensures
        encode_utf16(a + b) == encode_utf16(a) + encode_utf16(b),
    decreases a.len(),
{
    if a.len() == 0 {
        assert(a + b =~= b);
        assert(encode_utf16(a) + encode_utf16(b) =~= encode_utf16(b));
    } else {
        assert((a + b).drop_first() =~= a.drop_first() + b);
        lemma_encode_append(a.drop_first(), b);
        assert(encode_utf16(a + b) =~= char_utf16_units(a[0]) + (encode_utf16(a.drop_first())
            + encode_utf16(b)));
    }
}

/// Writes a text as a NUL-terminated UTF-16 buffer.
pub fn string_to_u16_vec(s: &str) -> (v: Vec<u16>)
    ensures
        v@ == wide_buffer_of(s@),
{
    let cs = chars_of(s);
    let n = cs.len();
    let mut v: Vec<u16> = Vec::new();
    for i in 0..n
        invariant
            n == cs@.len(),
            cs@ == s@,
            v@ == encode_utf16(cs@.take(i as int)),
    {
        let c = cs[i];
        let x = c as u32;
        proof {
            lemma_encode_append(cs@.take(i as int), seq![c]);
            assert(cs@.take(i + 1) =~= cs@.take(i as int) + seq![c]);
            assert(seq![c].drop_first() =~= Seq::<char>::empty());
            reveal_with_fuel(encode_utf16, 2);
            assert(encode_utf16(seq![c]) =~= char_utf16_units(c));
        }
        if x < 0x10000 {
            v.push(x as u16);
        } else {
            v.push((0xD800 + (x - 0x10000) / 0x400) as u16);
            v.push((0xDC00 + (x - 0x10000) % 0x400) as u16);
        }
    }
    assert(cs@.take(n as int) =~= cs@);
    v.push(0);
    v
}

proof fn lemma_surrogate_pair(x: u32)
    requires
        0x10000 <= x <= 0x10FFFF,
    ensures
        is_high_surrogate((0xD800 + (x - 0x10000) / 0x400) as u16),
        is_low_surrogate((0xDC00 + (x - 0x10000) % 0x400) as u16),
        surrogate_pair_code(
            (0xD800 + (x - 0x10000) / 0x400) as u16,
            (0xDC00 + (x - 0x10000) % 0x400) as u16,
        ) == x,
{
    let d: int = x - 0x10000;
    assert(0 <= d / 0x400 <= 0x3FF && 0 <= d % 0x400 < 0x400 && d == 0x400 * (d / 0x400) + d % 0x400)
        by (nonlinear_arith)
        requires
            0 <= d <= 0xFFFFF,
    ;
}

proof fn lemma_decode_encode(cs: Seq<char>)
    ensures
        decode_utf16_lossy(encode_utf16(cs)) == cs,
    decreases cs.len(),
{
    if cs.len() > 0 {
        let c = cs[0];
        let x = c as u32;
        vstd::utf8::char_is_scalar(c);
        let units = char_utf16_units(c);
        let tail = encode_utf16(cs.drop_first());
        let all = units + tail;
        assert(encode_utf16(cs) == all);
        lemma_decode_encode(cs.drop_first());
        if x < 0x10000 {
            assert(all[0] == x as u16);
            assert(all.drop_first() =~= tail);
            lemma_char_of_code(c, x);
            assert(decode_utf16_lossy(all) =~= seq![c] + cs.drop_first());
        } else {
            let hi = (0xD800 + (x - 0x10000) / 0x400) as u16;
            let lo = (0xDC00 + (x - 0x10000) % 0x400) as u16;
            assert(all[0] == hi && all[1] == lo);
            lemma_surrogate_pair(x);
            assert(all.subrange(2, all.len() as int) =~= tail);
            lemma_char_of_code(c, x);
            assert(decode_utf16_lossy(all) =~= seq![c] + cs.drop_first());
        }
        assert(seq![c] + cs.drop_first() =~= cs);
    }
}

proof fn lemma_encode_no_nul(cs: Seq<char>)
    requires
        forall|i: int| 0 <= i < cs.len() ==> cs[i] != '\0',
    ensures
        forall|j: int| 0 <= j < encode_utf16(cs).len() ==> encode_utf16(cs)[j] != 0,
    decreases cs.len(),
{
    if cs.len() > 0 {
        let c = cs[0];
        assert(c != '\0');
        lemma_encode_no_nul(cs.drop_first());
        let units = char_utf16_units(c);
        let tail = encode_utf16(cs.drop_first());
        assert(encode_utf16(cs) == units + tail);
        assert forall|j: int| 0 <= j < encode_utf16(cs).len() implies encode_utf16(cs)[j] != 0 by {
            if j < units.len() {
                vstd::utf8::char_is_scalar(c);
                if c as u32 == 0 {
                    lemma_char_of_code(c, 0);
                }
                if c as u32 >= 0x10000 {
                    lemma_surrogate_pair(c as u32);
                }
            } else {
                assert(encode_utf16(cs)[j] == tail[j - units.len()]);
            }
        }
    }
}

/// Writing a text into a wide buffer and reading it back gives the same text,
/// for every text without a NUL character.
pub proof fn law_wide_buffer_round_trip(cs: Seq<char>)
    requires
        forall|i: int| 0 <= i < cs.len() ==> cs[i] != '\0',
    ensures
        wide_buffer_text(wide_buffer_of(cs)) == cs,
{
    let enc = encode_utf16(cs);
    let buf = wide_buffer_of(cs);
    lemma_encode_no_nul(cs);
    lemma_nul_index(buf, enc.len() as int);
    assert(buf.take(enc.len() as int) =~= enc);
    lemma_decode_encode(cs);
}

} // verus!
