//! Parsing of shortcut strings such as `Ctrl+Alt+R` into Win32 hotkey
//! modifiers and virtual-key codes.
use vstd::prelude::*;
use crate::text::{ascii_lower_char, ascii_lowercase, chars_of, is_ascii_text, push_char};

verus! {

/// `MOD_ALT`
pub const MOD_ALT: u32 = 0x0001;
/// `MOD_CONTROL`
pub const MOD_CONTROL: u32 = 0x0002;
/// `MOD_SHIFT`
pub const MOD_SHIFT: u32 = 0x0004;
/// `MOD_WIN`
pub const MOD_WIN: u32 = 0x0008;

/// What `str::to_lowercase` returns for a text (full Unicode lowercase mapping).
pub uninterp spec fn str_lowercase(s: Seq<char>) -> Seq<char>;

/// `str::to_lowercase`: the lowercase equivalent of a text, by the Unicode
/// lowercase mapping of each character (and the final-sigma rule, which looks
/// only at whether the neighbouring letters are cased). An ASCII letter maps
/// to its ASCII lowercase, and lowercasing the ASCII letters beforehand keeps
/// every letter cased, so it changes nothing in the result; ASCII text comes
/// back as its ASCII lowercase.
#[verifier::external_body]
fn to_lowercase(s: &str) -> (r: String)
    ensures
        r@ == str_lowercase(s@),
        r@ == str_lowercase(ascii_lowercase(s@)),
        is_ascii_text(s@) ==> r@ == ascii_lowercase(s@),
{
    s.to_lowercase()
}

/// `char::is_whitespace`: the characters with the Unicode `White_Space` property.
pub open spec fn is_white_space(c: char) -> bool {
    let x = c as u32;
    ||| 0x09 <= x <= 0x0D
    ||| x == 0x20
    ||| x == 0x85
    ||| x == 0xA0
    ||| x == 0x1680
    ||| 0x2000 <= x <= 0x200A
    ||| x == 0x2028
    ||| x == 0x2029
    ||| x == 0x202F
    ||| x == 0x205F
    ||| x == 0x3000
}

pub open spec fn trim_start(s: Seq<char>) -> Seq<char>
    decreases s.len(),
{
    if s.len() > 0 && is_white_space(s[0]) {
        trim_start(s.drop_first())
    } else {
        s
    }
}

pub open spec fn trim_end(s: Seq<char>) -> Seq<char>
    decreases s.len(),
{
    if s.len() > 0 && is_white_space(s.last()) {
        trim_end(s.drop_last())
    } else {
        s
    }
}

/// `str::trim`: the text without leading and trailing white space.
pub open spec fn trim(s: Seq<char>) -> Seq<char> {
    trim_end(trim_start(s))
}

/// `str::split('+')`: the pieces between plus signs, empty ones included.
pub open spec fn split_plus(s: Seq<char>) -> Seq<Seq<char>>
    decreases s.len(),
{
    if s.len() == 0 {
        seq![Seq::<char>::empty()]
    } else {
        let init = split_plus(s.drop_last());
        if s.last() == '+' {
            init.push(Seq::<char>::empty())
        } else {
            init.update(init.len() - 1, init.last().push(s.last()))
        }
    }
}

pub open spec fn is_ascii_digit(c: char) -> bool {
    0x30 <= (c as u32) && (c as u32) <= 0x39
}

pub open spec fn is_ascii_alpha(c: char) -> bool {
    (0x41 <= (c as u32) && (c as u32) <= 0x5A) || (0x61 <= (c as u32) && (c as u32) <= 0x7A)
}

/// The value of a string of decimal digits.
pub open spec fn digits_value(d: Seq<char>) -> nat
    decreases d.len(),
{
    if d.len() == 0 {
        0
    } else {
        digits_value(d.drop_last()) * 10 + ((d.last() as u32) - 0x30) as nat
    }
}

pub open spec fn all_digits(d: Seq<char>) -> bool {
    forall|i: int| 0 <= i < d.len() ==> is_ascii_digit(#[trigger] d[i])
}

/// `u32::from_str`: an optional `+` followed by at least one decimal digit,
/// whose value fits in a `u32`.
pub open spec fn parse_u32(t: Seq<char>) -> Option<u32> {
    let d = if t.len() > 0 && t[0] == '+' {
        t.drop_first()
    } else {
        t
    };
    if d.len() > 0 && all_digits(d) && digits_value(d) <= u32::MAX {
        Some(digits_value(d) as u32)
    } else {
        None
    }
}

pub open spec fn word_ctrl() -> Seq<char> {
    seq!['c', 't', 'r', 'l']
}

pub open spec fn word_control() -> Seq<char> {
    seq!['c', 'o', 'n', 't', 'r', 'o', 'l']
}

pub open spec fn word_alt() -> Seq<char> {
    seq!['a', 'l', 't']
}

pub open spec fn word_shift() -> Seq<char> {
    seq!['s', 'h', 'i', 'f', 't']
}

pub open spec fn word_win() -> Seq<char> {
    seq!['w', 'i', 'n']
}

pub open spec fn word_super() -> Seq<char> {
    seq!['s', 'u', 'p', 'e', 'r']
}

pub open spec fn is_modifier_word(p: Seq<char>) -> bool {
    p == word_ctrl() || p == word_control() || p == word_alt() || p == word_shift() || p
        == word_win() || p == word_super()
}

/// The modifier flag that a lowercased part names, or 0.
pub open spec fn part_modifier(p: Seq<char>) -> u32 {
    if p == word_ctrl() || p == word_control() {
        MOD_CONTROL
    } else if p == word_alt() {
        MOD_ALT
    } else if p == word_shift() {
        MOD_SHIFT
    } else if p == word_win() || p == word_super() {
        MOD_WIN
    } else {
        0
    }
}

/// The virtual-key code that a lowercased part names, or 0: a single ASCII
/// letter (upper-cased) or digit, or `f1` to `f12`.
pub open spec fn part_key(p: Seq<char>) -> u32 {
    if is_modifier_word(p) {
        0
    } else if p.len() == 1 && (p[0] as u32) < 0x80 {
        let c = p[0];
        if is_ascii_alpha(c) {
            if 0x61 <= (c as u32) {
                ((c as u32) - 32) as u32
            } else {
                c as u32
            }
        } else if is_ascii_digit(c) {
            c as u32
        } else {
            0
        }
    } else if p.len() > 0 && p[0] == 'f' {
        match parse_u32(p.drop_first()) {
            Some(n) => if 1 <= n && n <= 12 {
                (0x6F + n) as u32
            } else {
                0
            },
            None => 0,
        }
    } else {
        0
    }
}

/// The lowercase of a text with its ASCII letters lowercased first and
/// `str::to_lowercase` applied after: ASCII text is then its ASCII lowercase.
/// `str::to_lowercase` gives the same text whether or not the ASCII letters
/// were lowercased before it.
pub open spec fn lowercase_of(t: Seq<char>) -> Seq<char> {
    if is_ascii_text(t) {
        ascii_lowercase(t)
    } else {
        str_lowercase(ascii_lowercase(t))
    }
}

/// A part of a shortcut string as the parser reads it: trimmed, then
/// lowercased by `str::to_lowercase`.
pub open spec fn normalized_part(p: Seq<char>) -> Seq<char> {
    str_lowercase(trim(p))
}

/// The same part with its ASCII letters lowercased before `str::to_lowercase`;
/// the parser's lowercased part equals this too.
pub open spec fn folded_part(p: Seq<char>) -> Seq<char> {
    lowercase_of(trim(p))
}

/// Each part trimmed and lowercased by `str::to_lowercase`.
pub open spec fn normalized_parts(ps: Seq<Seq<char>>) -> Seq<Seq<char>> {
    ps.map_values(|p: Seq<char>| normalized_part(p))
}

/// Each part trimmed and lowercased with its ASCII letters lowercased first.
pub open spec fn folded_parts(ps: Seq<Seq<char>>) -> Seq<Seq<char>> {
    ps.map_values(|p: Seq<char>| folded_part(p))
}

/// The texts of a list of strings.
pub open spec fn string_views(v: Seq<String>) -> Seq<Seq<char>> {
    v.map_values(|s: String| s@)
}

/// The modifiers that a list of lowercased parts names together.
pub open spec fn fold_modifiers(ls: Seq<Seq<char>>) -> u32
    decreases ls.len(),
{
    if ls.len() == 0 {
        0
    } else {
        fold_modifiers(ls.drop_last()) | part_modifier(ls.last())
    }
}

/// The key of the last lowercased part that names a key, or 0.
pub open spec fn fold_key(ls: Seq<Seq<char>>) -> u32
    decreases ls.len(),
{
    if ls.len() == 0 {
        0
    } else {
        let k = part_key(ls.last());
        if k != 0 {
            k
        } else {
            fold_key(ls.drop_last())
        }
    }
}

/// The hotkey that trimmed, lowercased parts name: `None` when no part names a key.
pub open spec fn hotkey_of_parts(ls: Seq<Seq<char>>) -> Option<(u32, u32)> {
    let vk = fold_key(ls);
    if vk != 0 {
        Some((fold_modifiers(ls), vk))
    } else {
        None
    }
}

/// The hotkey that a shortcut string names: its parts between `+` signs,
/// trimmed and lowercased by `str::to_lowercase`.
pub open spec fn hotkey_of(s: Seq<char>) -> Option<(u32, u32)> {
    hotkey_of_parts(normalized_parts(split_plus(s)))
}

/// The hotkey that a shortcut string names, its parts lowercased with the
/// ASCII letters lowercased first; the parser's result equals this too.
pub open spec fn hotkey_folded(s: Seq<char>) -> Option<(u32, u32)> {
    hotkey_of_parts(folded_parts(split_plus(s)))
}

/// The keys a hotkey can be bound to: `0`-`9`, `A`-`Z`, `F1`-`F12`.
pub open spec fn is_supported_key(vk: u32) -> bool {
    (0x30 <= vk && vk <= 0x39) || (0x41 <= vk && vk <= 0x5A) || (0x70 <= vk && vk <= 0x7B)
}

fn is_white_space_char(c: char) -> (b: bool)
    ensures
        b == is_white_space(c),
{
    let x = c as u32;
    (0x09 <= x && x <= 0x0D) || x == 0x20 || x == 0x85 || x == 0xA0 || x == 0x1680 || (0x2000
        <= x && x <= 0x200A) || x == 0x2028 || x == 0x2029 || x == 0x202F || x == 0x205F || x
        == 0x3000
}

proof fn lemma_trim_start(s: Seq<char>, k: int)
    requires
        0 <= k <= s.len(),
        forall|j: int| 0 <= j < k ==> is_white_space(s[j]),
        k == s.len() || !is_white_space(s[k]),
    ensures
        trim_start(s) == s.subrange(k, s.len() as int),
    decreases k,
{
    if k == 0 {
        assert(s.subrange(0, s.len() as int) =~= s);
    } else {
        lemma_trim_start(s.drop_first(), k - 1);
        assert(s.drop_first().subrange(k - 1, s.len() - 1) =~= s.subrange(k, s.len() as int));
    }
}

proof fn lemma_trim_end(s: Seq<char>, k: int)
    requires
        0 <= k <= s.len(),
        forall|j: int| k <= j < s.len() ==> is_white_space(s[j]),
        k == 0 || !is_white_space(s[k - 1]),
    ensures
        trim_end(s) == s.subrange(0, k),
    decreases s.len() - k,
{
    if k == s.len() {
        assert(s.subrange(0, k) =~= s);
    } else {
        lemma_trim_end(s.drop_last(), k);
        assert(s.drop_last().subrange(0, k) =~= s.subrange(0, k));
    }
}

/// The bounds of the trimmed text within `cs[lo..hi]`.
fn trim_range(cs: &Vec<char>, lo: usize, hi: usize) -> (r: (usize, usize))
    requires
        lo <= hi <= cs@.len(),
    ensures
        lo <= r.0 <= r.1 <= hi,
        trim(cs@.subrange(lo as int, hi as int)) == cs@.subrange(r.0 as int, r.1 as int),
{
    let ghost s = cs@.subrange(lo as int, hi as int);
    let mut a = lo;
    while a < hi && is_white_space_char(cs[a])
        invariant
            lo <= a <= hi <= cs@.len(),
            forall|j: int| lo <= j < a ==> is_white_space(cs@[j]),
        decreases hi - a,
    {
        a = a + 1;
    }
    proof {
        lemma_trim_start(s, a - lo);
        assert(s.subrange(a - lo, s.len() as int) =~= cs@.subrange(a as int, hi as int));
    }
    let ghost t = cs@.subrange(a as int, hi as int);
    let mut b = hi;
    while b > a && is_white_space_char(cs[b - 1])
        invariant
            a <= b <= hi <= cs@.len(),
            forall|j: int| b <= j < hi ==> is_white_space(cs@[j]),
        decreases b - a,
    {
        b = b - 1;
    }
    proof {
        lemma_trim_end(t, b - a);
        assert(t.subrange(0, b - a) =~= cs@.subrange(a as int, b as int));
    }
    (a, b)
}

/// A string holding `cs[lo..hi]`.
fn string_of_range(cs: &Vec<char>, lo: usize, hi: usize) -> (s: String)
    requires
        lo <= hi <= cs@.len(),
    ensures
        s@ == cs@.subrange(lo as int, hi as int),
{
    let mut s = String::new();
    let mut i = lo;
    while i < hi
        invariant
            lo <= i <= hi <= cs@.len(),
            s@ == cs@.subrange(lo as int, i as int),
        decreases hi - i,
    {
        push_char(&mut s, cs[i]);
        assert(cs@.subrange(lo as int, i + 1) =~= cs@.subrange(lo as int, i as int).push(cs@[i as int]));
        i = i + 1;
    }
    s
}

fn equals_word(p: &Vec<char>, w: &Vec<char>) -> (b: bool)
    ensures
        b == (p@ == w@),
{
    if p.len() != w.len() {
        return false;
    }
    let n = p.len();
    for i in 0..n
        invariant
            n == p@.len(),
            n == w@.len(),
            forall|j: int| 0 <= j < i ==> p@[j] == w@[j],
    {
        if p[i] != w[i] {
            return false;
        }
    }
    assert(p@ =~= w@);
    true
}

fn modifier_of(p: &Vec<char>) -> (m: u32)
    ensures
        m == part_modifier(p@),
        (m == 0) == !is_modifier_word(p@),
{
    let ctrl = vec!['c', 't', 'r', 'l'];
    let control = vec!['c', 'o', 'n', 't', 'r', 'o', 'l'];
    let alt = vec!['a', 'l', 't'];
    let shift = vec!['s', 'h', 'i', 'f', 't'];
    let win = vec!['w', 'i', 'n'];
    let sup = vec!['s', 'u', 'p', 'e', 'r'];
    assert(ctrl@ == word_ctrl());
    assert(control@ == word_control());
    assert(alt@ == word_alt());
    assert(shift@ == word_shift());
    assert(win@ == word_win());
    assert(sup@ == word_super());
    if equals_word(p, &ctrl) || equals_word(p, &control) {
        MOD_CONTROL
    } else if equals_word(p, &alt) {
        MOD_ALT
    } else if equals_word(p, &shift) {
        MOD_SHIFT
    } else if equals_word(p, &win) || equals_word(p, &sup) {
        MOD_WIN
    } else {
        0
    }
}

proof fn lemma_digits_value_grows(d: Seq<char>, i: int)
    requires
        0 <= i <= d.len(),
        all_digits(d),
    ensures
        digits_value(d.take(i)) <= digits_value(d),
    decreases d.len() - i,
{
    if i < d.len() {
        lemma_digits_value_grows(d, i + 1);
        assert(d.take(i + 1).drop_last() =~= d.take(i));
        assert(is_ascii_digit(d[i]));
    } else {
        assert(d.take(i) =~= d);
    }
}

/// `u32::from_str` on `cs[lo..]`.
fn parse_u32_from(cs: &Vec<char>, lo: usize) -> (r: Option<u32>)
    requires
        lo <= cs@.len(),
    ensures
        r == parse_u32(cs@.subrange(lo as int, cs@.len() as int)),
{
    let ghost t = cs@.subrange(lo as int, cs@.len() as int);
    let n = cs.len();
    let start = if lo < n && cs[lo] == '+' {
        lo + 1
    } else {
        lo
    };
    let ghost d = cs@.subrange(start as int, n as int);
    assert(d == (if t.len() > 0 && t[0] == '+' {
        t.drop_first()
    } else {
        t
    }));
    if start >= n {
        return None;
    }
    let mut acc: u64 = 0;
    let mut i = start;
    while i < n
        invariant
            start <= i <= n,
            n == cs@.len(),
            d == cs@.subrange(start as int, n as int),
            t == cs@.subrange(lo as int, n as int),
            d == (if t.len() > 0 && t[0] == '+' {
                t.drop_first()
            } else {
                t
            }),
            d.len() > 0,
            all_digits(cs@.subrange(start as int, i as int)),
            acc == digits_value(cs@.subrange(start as int, i as int)),
            acc <= u32::MAX,
        decreases n - i,
    {
        let c = cs[i];
        let x = c as u32;
        if !(x >= 0x30 && x <= 0x39) {
            assert(d[i - start] == c);
            assert(!is_ascii_digit(d[i - start]));
            assert(!all_digits(d));
            return None;
        }
        let ghost before = cs@.subrange(start as int, i as int);
        let ghost after = cs@.subrange(start as int, i + 1);
        assert(after.drop_last() =~= before);
        assert(after.last() == c);
        acc = acc * 10 + (x - 0x30) as u64;
        i = i + 1;
        if acc > u32::MAX as u64 {
            proof {
                if all_digits(d) {
                    assert(d.take(i - start) =~= after);
                    lemma_digits_value_grows(d, i - start);
                }
            }
            return None;
        }
    }
    assert(cs@.subrange(start as int, n as int) == d);
    Some(acc as u32)
}

fn key_of(p: &Vec<char>) -> (k: u32)
    ensures
        k == part_key(p@),
{
    let m = modifier_of(p);
    if m != 0 {
        return 0;
    }
    if p.len() == 1 && (p[0] as u32) < 0x80 {
        let x = p[0] as u32;
        if (x >= 0x41 && x <= 0x5A) || (x >= 0x61 && x <= 0x7A) {
            if x >= 0x61 {
                x - 32
            } else {
                x
            }
        } else if x >= 0x30 && x <= 0x39 {
            x
        } else {
            0
        }
    } else if p.len() > 0 && p[0] == 'f' {
        assert(p@.drop_first() =~= p@.subrange(1, p@.len() as int));
        match parse_u32_from(p, 1) {
            Some(num) => if num >= 1 && num <= 12 {
                0x6F + num
            } else {
                0
            },
            None => 0,
        }
    } else {
        0
    }
}

/// One part `cs[lo..hi]` of a shortcut string, trimmed and lowercased.
fn lower_part(cs: &Vec<char>, lo: usize, hi: usize) -> (s: String)
    requires
        lo <= hi <= cs@.len(),
    ensures
        s@ == normalized_part(cs@.subrange(lo as int, hi as int)),
        s@ == folded_part(cs@.subrange(lo as int, hi as int)),
{
    let (a, b) = trim_range(cs, lo, hi);
    let trimmed = string_of_range(cs, a, b);
    to_lowercase(trimmed.as_str())
}

/// The hotkey that trimmed, lowercased parts name (the parts as
/// `str::to_lowercase` gives them back): the modifiers of all of them, and the
/// key of the last one that names a key; `None` when none does.
pub fn hotkey_of_lowered(parts: &Vec<String>) -> (r: Option<(u32, u32)>)
    ensures
        r == hotkey_of_parts(string_views(parts@)),
        r matches Some((m, vk)) ==> m <= 0xF && is_supported_key(vk),
{
    let ghost ls = string_views(parts@);
    let mut modifiers: u32 = 0;
    let mut vk: u32 = 0;
    let n = parts.len();
    for i in 0..n
        invariant
            n == parts@.len(),
            ls == string_views(parts@),
            modifiers == fold_modifiers(ls.take(i as int)),
            vk == fold_key(ls.take(i as int)),
    {
        let lp = chars_of(parts[i].as_str());
        let m = modifier_of(&lp);
        let k = key_of(&lp);
        proof {
            assert(ls.take(i + 1).drop_last() =~= ls.take(i as int));
            assert(ls.take(i + 1).last() == lp@);
        }
        modifiers = modifiers | m;
        if k != 0 {
            vk = k;
        }
    }
    proof {
        assert(ls.take(n as int) =~= ls);
        lemma_fold_bounds(ls);
    }
    if vk != 0 {
        Some((modifiers, vk))
    } else {
        None
    }
}

proof fn lemma_split_step(s: Seq<char>, i: int)
    requires
        0 <= i < s.len(),
    ensures
        s.take(i + 1).drop_last() == s.take(i),
        s.take(i + 1).last() == s[i],
{
    assert(s.take(i + 1).drop_last() =~= s.take(i));
}

proof fn lemma_parts_push(v: Seq<String>, x: String, ps: Seq<Seq<char>>, q: Seq<char>)
    requires
        string_views(v) == normalized_parts(ps),
        string_views(v) == folded_parts(ps),
        x@ == normalized_part(q),
        x@ == folded_part(q),
    ensures
        string_views(v.push(x)) == normalized_parts(ps.push(q)),
        string_views(v.push(x)) == folded_parts(ps.push(q)),
{
    assert(string_views(v.push(x)) =~= string_views(v).push(x@));
    assert(normalized_parts(ps.push(q)) =~= normalized_parts(ps).push(normalized_part(q)));
    assert(folded_parts(ps.push(q)) =~= folded_parts(ps).push(folded_part(q)));
}

/// Parses a shortcut string such as `Ctrl+Alt+R`: the parts between `+` signs,
/// trimmed and lowercased, name modifiers (`ctrl`/`control`, `alt`, `shift`,
/// `win`/`super`) or a key (one letter or digit, or `f1` to `f12`; the last
/// one wins). Returns the modifier flags and the virtual-key code, or `None`
/// when no part names a key.
pub fn parse_hotkey(hotkey_str: &str) -> (r: Option<(u32, u32)>)
    ensures
        r == hotkey_of(hotkey_str@),
        r == hotkey_folded(hotkey_str@),
        r matches Some((m, vk)) ==> m <= 0xF && is_supported_key(vk),
{
    let cs = chars_of(hotkey_str);
    let n = cs.len();
    let mut parts: Vec<String> = Vec::new();
    let mut start: usize = 0;
    let mut i: usize = 0;
    let ghost mut done: Seq<Seq<char>> = Seq::empty();
    assert(cs@.take(0) =~= Seq::<char>::empty());
    assert(cs@.subrange(0, 0) =~= Seq::<char>::empty());
    assert(split_plus(cs@.take(0)) =~= done.push(cs@.subrange(0, 0)));
    assert(string_views(parts@) =~= normalized_parts(done));
    assert(string_views(parts@) =~= folded_parts(done));
    while i < n
        invariant
            start <= i <= n,
            n == cs@.len(),
            split_plus(cs@.take(i as int)) == done.push(cs@.subrange(start as int, i as int)),
            string_views(parts@) == normalized_parts(done),
            string_views(parts@) == folded_parts(done),
        decreases n - i,
    {
        proof {
            lemma_split_step(cs@, i as int);
        }
        if cs[i] == '+' {
            let lp = lower_part(&cs, start, i);
            let ghost prev = parts@;
            parts.push(lp);
            proof {
                let q = cs@.subrange(start as int, i as int);
                lemma_parts_push(prev, lp, done, q);
                done = done.push(q);
                assert(cs@.subrange(i + 1, i + 1) =~= Seq::<char>::empty());
            }
            start = i + 1;
        } else {
            assert(cs@.subrange(start as int, i + 1) =~= cs@.subrange(start as int, i as int).push(
                cs@[i as int],
            ));
        }
        i = i + 1;
    }
    let lp = lower_part(&cs, start, n);
    let ghost prev = parts@;
    parts.push(lp);
    proof {
        let q = cs@.subrange(start as int, n as int);
        lemma_parts_push(prev, lp, done, q);
        assert(cs@.take(n as int) =~= cs@);
    }
    hotkey_of_lowered(&parts)
}

proof fn lemma_part_bounds(p: Seq<char>)
    ensures
        part_modifier(p) <= 0xF,
        part_key(p) == 0 || is_supported_key(part_key(p)),
{
}

proof fn lemma_fold_bounds(ls: Seq<Seq<char>>)
    ensures
        fold_modifiers(ls) <= 0xF,
        fold_key(ls) == 0 || is_supported_key(fold_key(ls)),
    decreases ls.len(),
{
    if ls.len() > 0 {
        lemma_fold_bounds(ls.drop_last());
        lemma_part_bounds(ls.last());
        let a = fold_modifiers(ls.drop_last());
        let b = part_modifier(ls.last());
        assert((a | b) <= 0xF) by (bit_vector)
            requires
                a <= 0xF,
                b <= 0xF,
        ;
    }
}

proof fn lemma_lower_char(c: char)
    ensures
        is_white_space(ascii_lower_char(c)) == is_white_space(c),
        (ascii_lower_char(c) == '+') == (c == '+'),
        ascii_lower_char(ascii_lower_char(c)) == ascii_lower_char(c),
        ((ascii_lower_char(c) as u32) < 0x80) == ((c as u32) < 0x80),
{
}

proof fn lemma_lower_keeps_ascii(t: Seq<char>)
    ensures
        is_ascii_text(ascii_lowercase(t)) == is_ascii_text(t),
{
    if is_ascii_text(t) {
        assert forall|i: int| 0 <= i < t.len() implies (ascii_lowercase(t)[i] as u32) < 0x80 by {
            lemma_lower_char(t[i]);
        }
    }
    if is_ascii_text(ascii_lowercase(t)) {
        assert forall|i: int| 0 <= i < t.len() implies (t[i] as u32) < 0x80 by {
            lemma_lower_char(t[i]);
            assert(ascii_lowercase(t)[i] == ascii_lower_char(t[i]));
        }
    }
}

proof fn lemma_lower_idempotent(t: Seq<char>)
    ensures
        ascii_lowercase(ascii_lowercase(t)) == ascii_lowercase(t),
{
    assert forall|i: int| 0 <= i < t.len() implies ascii_lowercase(ascii_lowercase(t))[i]
        == ascii_lowercase(t)[i] by {
        lemma_lower_char(t[i]);
    }
    assert(ascii_lowercase(ascii_lowercase(t)) =~= ascii_lowercase(t));
}

proof fn lemma_trim_start_lower(p: Seq<char>)
    ensures
        trim_start(ascii_lowercase(p)) == ascii_lowercase(trim_start(p)),
    decreases p.len(),
{
    let lp = ascii_lowercase(p);
    if p.len() > 0 {
        lemma_lower_char(p[0]);
        assert(lp[0] == ascii_lower_char(p[0]));
        if is_white_space(p[0]) {
            assert(lp.drop_first() =~= ascii_lowercase(p.drop_first()));
            lemma_trim_start_lower(p.drop_first());
        }
    } else {
        assert(lp =~= p);
    }
}

proof fn lemma_trim_end_lower(p: Seq<char>)
    ensures
        trim_end(ascii_lowercase(p)) == ascii_lowercase(trim_end(p)),
    decreases p.len(),
{
    let lp = ascii_lowercase(p);
    if p.len() > 0 {
        lemma_lower_char(p.last());
        assert(lp.last() == ascii_lower_char(p.last()));
        if is_white_space(p.last()) {
            assert(lp.drop_last() =~= ascii_lowercase(p.drop_last()));
            lemma_trim_end_lower(p.drop_last());
        }
    } else {
        assert(lp =~= p);
    }
}

proof fn lemma_folded_lower(p: Seq<char>)
    ensures
        folded_part(ascii_lowercase(p)) == folded_part(p),
{
    lemma_trim_start_lower(p);
    lemma_trim_end_lower(trim_start(p));
    let t = trim(p);
    assert(trim(ascii_lowercase(p)) == ascii_lowercase(t));
    lemma_lower_keeps_ascii(t);
    lemma_lower_idempotent(t);
}

proof fn lemma_split_lower(s: Seq<char>)
    ensures
        split_plus(ascii_lowercase(s)) == split_plus(s).map_values(|p: Seq<char>| ascii_lowercase(p)),
        split_plus(s).len() >= 1,
    decreases s.len(),
{
    let ls = ascii_lowercase(s);
    if s.len() == 0 {
        assert(ls =~= s);
        assert(ascii_lowercase(Seq::<char>::empty()) =~= Seq::<char>::empty());
        assert(split_plus(s).map_values(|p: Seq<char>| ascii_lowercase(p)) =~= split_plus(s));
    } else {
        lemma_split_lower(s.drop_last());
        assert(ls.drop_last() =~= ascii_lowercase(s.drop_last()));
        lemma_lower_char(s.last());
        assert(ls.last() == ascii_lower_char(s.last()));
        let init = split_plus(s.drop_last());
        let linit = split_plus(ls.drop_last());
        assert(linit == init.map_values(|p: Seq<char>| ascii_lowercase(p)));
        if s.last() == '+' {
            assert(ascii_lowercase(Seq::<char>::empty()) =~= Seq::<char>::empty());
            assert(split_plus(ls) =~= split_plus(s).map_values(|p: Seq<char>| ascii_lowercase(p)));
        } else {
            let last = init.last();
            assert(ascii_lowercase(last.push(s.last())) =~= ascii_lowercase(last).push(
                ascii_lower_char(s.last()),
            ));
            assert(split_plus(ls) =~= split_plus(s).map_values(|p: Seq<char>| ascii_lowercase(p)));
        }
    }
}

proof fn lemma_hotkey_folded_lower(s: Seq<char>)
    ensures
        hotkey_folded(ascii_lowercase(s)) == hotkey_folded(s),
{
    lemma_split_lower(s);
    let ps = split_plus(s);
    let lps = split_plus(ascii_lowercase(s));
    assert forall|i: int| 0 <= i < lps.len() implies folded_part(#[trigger] lps[i])
        == folded_part(ps[i]) by {
        assert(lps[i] == ascii_lowercase(ps[i]));
        lemma_folded_lower(ps[i]);
    }
    assert(folded_parts(lps) =~= folded_parts(ps));
}

/// ASCII uppercase of one character.
pub open spec fn ascii_upper_char(c: char) -> char {
    if 0x61 <= (c as u32) && (c as u32) <= 0x7A {
        ((c as u32) - 32) as char
    } else {
        c
    }
}

/// ASCII uppercase of a text: `a`..`z` become `A`..`Z`, all else is kept.
pub open spec fn ascii_uppercase(s: Seq<char>) -> Seq<char> {
    s.map_values(|c: char| ascii_upper_char(c))
}

/// Shortcut strings are read without regard to the case of ASCII letters: two
/// strings that differ only there name the same hotkey (as `parse_hotkey`
/// returns it), whatever other characters they hold.
pub proof fn law_hotkey_ignores_ascii_case(a: Seq<char>, b: Seq<char>)
    requires
        ascii_lowercase(a) == ascii_lowercase(b),
    ensures
        hotkey_folded(a) == hotkey_folded(b),
{
    lemma_hotkey_folded_lower(a);
    lemma_hotkey_folded_lower(b);
}

/// Lowercasing or uppercasing the ASCII letters of a shortcut string does not
/// change the hotkey it names (as `parse_hotkey` returns it).
pub proof fn law_hotkey_case_variants(s: Seq<char>)
    ensures
        hotkey_folded(ascii_lowercase(s)) == hotkey_folded(s),
        hotkey_folded(ascii_uppercase(s)) == hotkey_folded(s),
{
    lemma_hotkey_folded_lower(s);
    assert forall|i: int| 0 <= i < s.len() implies ascii_lowercase(ascii_uppercase(s))[i]
        == ascii_lowercase(s)[i] by {
        let c = s[i];
        assert(ascii_uppercase(s)[i] == ascii_upper_char(c));
    }
    assert(ascii_lowercase(ascii_uppercase(s)) =~= ascii_lowercase(s));
    law_hotkey_ignores_ascii_case(ascii_uppercase(s), s);
}

/// The parts joined again with `+` between them.
pub open spec fn join_plus(ps: Seq<Seq<char>>) -> Seq<char>
    decreases ps.len(),
{
    if ps.len() == 0 {
        Seq::empty()
    } else if ps.len() == 1 {
        ps[0]
    } else {
        join_plus(ps.drop_last()) + seq!['+'] + ps.last()
    }
}

/// A part with a space before and after it.
pub open spec fn padded_part(p: Seq<char>) -> Seq<char> {
    seq![' '] + p + seq![' ']
}

/// A shortcut string with a space put on each side of every part.
pub open spec fn pad_parts(s: Seq<char>) -> Seq<char> {
    join_plus(split_plus(s).map_values(|p: Seq<char>| padded_part(p)))
}

pub open spec fn no_plus(p: Seq<char>) -> bool {
    forall|i: int| 0 <= i < p.len() ==> p[i] != '+'
}

proof fn lemma_split_no_plus(s: Seq<char>)
    ensures
        forall|i: int| 0 <= i < split_plus(s).len() ==> no_plus(#[trigger] split_plus(s)[i]),
        split_plus(s).len() >= 1,
    decreases s.len(),
{
    lemma_split_lower(s);
    if s.len() > 0 {
        lemma_split_no_plus(s.drop_last());
        let init = split_plus(s.drop_last());
        if s.last() != '+' {
            let last = init.last();
            assert(no_plus(init[init.len() - 1]));
            assert forall|k: int| 0 <= k < last.push(s.last()).len() implies last.push(s.last())[k] != '+' by {
                if k < last.len() {
                    assert(last.push(s.last())[k] == last[k]);
                }
            }
        } else {
            assert(no_plus(Seq::<char>::empty()));
        }
    }
}

proof fn lemma_split_append_no_plus(x: Seq<char>, l: Seq<char>)
    requires
        no_plus(l),
    ensures
        split_plus(x + l) == split_plus(x).update(
            split_plus(x).len() - 1,
            split_plus(x).last() + l,
        ),
    decreases l.len(),
{
    lemma_split_no_plus(x);
    if l.len() == 0 {
        assert(x + l =~= x);
        assert(split_plus(x).last() + l =~= split_plus(x).last());
        assert(split_plus(x).update(split_plus(x).len() - 1, split_plus(x).last())
            =~= split_plus(x));
    } else {
        let l0 = l.drop_last();
        assert(no_plus(l0)) by {
            assert forall|i: int| 0 <= i < l0.len() implies l0[i] != '+' by {
                assert(l0[i] == l[i]);
            }
        }
        lemma_split_append_no_plus(x, l0);
        assert((x + l).drop_last() =~= x + l0);
        assert((x + l).last() == l.last());
        assert(l.last() != '+');
        let sx = split_plus(x);
        assert((sx.last() + l0).push(l.last()) =~= sx.last() + l);
        assert(split_plus(x + l) =~= sx.update(sx.len() - 1, sx.last() + l));
    }
}

proof fn lemma_split_join(ps: Seq<Seq<char>>)
    requires
        ps.len() >= 1,
        forall|i: int| 0 <= i < ps.len() ==> no_plus(#[trigger] ps[i]),
    ensures
        split_plus(join_plus(ps)) == ps,
    decreases ps.len(),
{
    if ps.len() == 1 {
        lemma_split_append_no_plus(Seq::<char>::empty(), ps[0]);
        assert(Seq::<char>::empty() + ps[0] =~= ps[0]);
        assert(split_plus(ps[0]) =~= ps);
    } else {
        let init = ps.drop_last();
        assert forall|i: int| 0 <= i < init.len() implies no_plus(#[trigger] init[i]) by {
            assert(init[i] == ps[i]);
        }
        lemma_split_join(init);
        let a = join_plus(init) + seq!['+'];
        assert(a.drop_last() =~= join_plus(init));
        assert(split_plus(a) == init.push(Seq::<char>::empty()));
        assert(no_plus(ps[ps.len() - 1]));
        lemma_split_append_no_plus(a, ps.last());
        assert(Seq::<char>::empty() + ps.last() =~= ps.last());
        assert(split_plus(a + ps.last()) =~= ps);
    }
}

proof fn lemma_trim_start_space(x: Seq<char>)
    ensures
        trim_start(seq![' '] + x) == trim_start(x),
{
    assert((seq![' '] + x).drop_first() =~= x);
}

proof fn lemma_trim_end_space(x: Seq<char>)
    ensures
        trim_end(x + seq![' ']) == trim_end(x),
{
    assert((x + seq![' ']).drop_last() =~= x);
}

proof fn lemma_trim_space_after(x: Seq<char>)
    ensures
        trim_end(trim_start(x + seq![' '])) == trim_end(trim_start(x)),
    decreases x.len(),
{
    if x.len() == 0 {
        assert(x + seq![' '] =~= seq![' ']);
        assert(seq![' '].drop_first() =~= Seq::<char>::empty());
        assert(x =~= Seq::<char>::empty());
    } else if is_white_space(x[0]) {
        assert((x + seq![' ']).drop_first() =~= x.drop_first() + seq![' ']);
        lemma_trim_space_after(x.drop_first());
    } else {
        lemma_trim_end_space(x);
    }
}

proof fn lemma_trim_padded(p: Seq<char>)
    ensures
        trim(padded_part(p)) == trim(p),
{
    assert(padded_part(p) =~= seq![' '] + (p + seq![' ']));
    lemma_trim_start_space(p + seq![' ']);
    lemma_trim_space_after(p);
}

/// Spaces put around the parts of a shortcut string do not change the hotkey
/// it names.
pub proof fn law_hotkey_ignores_spaces_around_parts(s: Seq<char>)
    ensures
        hotkey_of(pad_parts(s)) == hotkey_of(s),
        hotkey_folded(pad_parts(s)) == hotkey_folded(s),
{
    lemma_split_no_plus(s);
    let ps = split_plus(s);
    let qs = ps.map_values(|p: Seq<char>| padded_part(p));
    assert forall|i: int| 0 <= i < qs.len() implies no_plus(#[trigger] qs[i]) by {
        assert(qs[i] == padded_part(ps[i]));
        assert(no_plus(ps[i]));
        assert forall|k: int| 0 <= k < qs[i].len() implies qs[i][k] != '+' by {
            if 0 < k < qs[i].len() - 1 {
                assert(qs[i][k] == ps[i][k - 1]);
            }
        }
    }
    lemma_split_join(qs);
    assert forall|i: int| 0 <= i < qs.len() implies trim(#[trigger] qs[i]) == trim(ps[i]) by {
        lemma_trim_padded(ps[i]);
    }
    assert(normalized_parts(qs) =~= normalized_parts(ps));
    assert(folded_parts(qs) =~= folded_parts(ps));
}

proof fn lemma_split_push_part(s: Seq<char>, c: char)
    requires
        c != '+',
    ensures
        split_plus(s + seq!['+', c]) == split_plus(s).push(seq![c]),
{
    let x = s + seq!['+', c];
    assert(x.drop_last() =~= s.push('+'));
    assert(s.push('+').drop_last() =~= s);
    lemma_split_no_plus(s);
    let init = split_plus(s.push('+'));
    assert(init == split_plus(s).push(Seq::<char>::empty()));
    assert(init.last().push(c) =~= seq![c]);
    assert(split_plus(x) =~= split_plus(s).push(seq![c]));
}

proof fn lemma_folded_single(c: char)
    requires
        (c as u32) < 0x80,
        !is_white_space(c),
    ensures
        folded_part(seq![c]) == seq![crate::text::ascii_lower_char(c)],
{
    let p = seq![c];
    assert(p.drop_first() =~= Seq::<char>::empty());
    assert(trim_start(p) == p);
    assert(p.drop_last() =~= Seq::<char>::empty());
    assert(trim_end(p) == p);
    assert(is_ascii_text(p));
    assert(ascii_lowercase(p) =~= seq![crate::text::ascii_lower_char(c)]);
}

/// A last part that is one ASCII digit or letter names the key of the hotkey:
/// the digit's own code (`0` included), or the letter's uppercase code;
/// the modifiers are those that the parts before it name.
pub proof fn law_single_char_part_is_key(s: Seq<char>, c: char)
    requires
        (0x30 <= (c as u32) && (c as u32) <= 0x39) || (0x41 <= (c as u32) && (c as u32) <= 0x5A)
            || (0x61 <= (c as u32) && (c as u32) <= 0x7A),
    ensures
        hotkey_folded(s + seq!['+', c]) == Some(
            (
                fold_modifiers(folded_parts(split_plus(s))),
                (if (c as u32) <= 0x39 { c } else { ascii_upper_char(c) }) as u32,
            ),
        ),
{
    lemma_split_push_part(s, c);
    let ps = split_plus(s);
    assert(folded_parts(ps.push(seq![c])) =~= folded_parts(ps).push(folded_part(seq![c])));
    lemma_folded_single(c);
    let l = crate::text::ascii_lower_char(c);
    let q = seq![l];
    let ls = folded_parts(ps).push(q);
    assert(ls.drop_last() =~= folded_parts(ps));
    assert(!is_modifier_word(q)) by {
        assert(q.len() != word_ctrl().len());
        assert(q.len() != word_control().len());
        assert(q.len() != word_alt().len());
        assert(q.len() != word_shift().len());
        assert(q.len() != word_win().len());
        assert(q.len() != word_super().len());
    }
    assert(part_modifier(q) == 0);
    let m = fold_modifiers(folded_parts(ps));
    assert(m | 0 == m) by (bit_vector);
}

/// `Ctrl+Alt+` followed by one ASCII digit or letter names that key with the
/// control and alt modifiers.
pub proof fn law_ctrl_alt_key(c: char)
    requires
        (0x30 <= (c as u32) && (c as u32) <= 0x39) || (0x41 <= (c as u32) && (c as u32) <= 0x5A)
            || (0x61 <= (c as u32) && (c as u32) <= 0x7A),
    ensures
        hotkey_folded(seq!['C', 't', 'r', 'l', '+', 'A', 'l', 't', '+', c]) == Some(
            (
                MOD_CONTROL | MOD_ALT,
                (if (c as u32) <= 0x39 { c } else { ascii_upper_char(c) }) as u32,
            ),
        ),
{
    let ctrl = seq!['C', 't', 'r', 'l'];
    let alt = seq!['A', 'l', 't'];
    let s = seq!['C', 't', 'r', 'l', '+', 'A', 'l', 't'];
    assert(seq!['C', 't', 'r', 'l', '+', 'A', 'l', 't', '+', c] =~= s + seq!['+', c]);
    law_single_char_part_is_key(s, c);
    let ps = seq![ctrl, alt];
    assert(no_plus(ctrl));
    assert(no_plus(alt));
    lemma_split_join(ps);
    assert(ps.drop_last() =~= seq![ctrl]);
    assert(join_plus(seq![ctrl]) == ctrl);
    assert(join_plus(ps) =~= s);
    assert(split_plus(s) == ps);
    assert(ctrl.drop_first() =~= seq!['t', 'r', 'l']);
    assert(trim_start(ctrl) == ctrl);
    assert(trim_end(ctrl) == ctrl);
    assert(is_ascii_text(ctrl));
    assert(ascii_lowercase(ctrl) =~= word_ctrl());
    assert(folded_part(ctrl) == word_ctrl());
    assert(trim_start(alt) == alt);
    assert(trim_end(alt) == alt);
    assert(is_ascii_text(alt));
    assert(ascii_lowercase(alt) =~= word_alt());
    assert(folded_part(alt) == word_alt());
    let ls = folded_parts(ps);
    assert(ls =~= seq![word_ctrl(), word_alt()]);
    assert(ls.drop_last() =~= seq![word_ctrl()]);
    let l1 = ls.drop_last();
    assert(l1.drop_last() =~= Seq::<Seq<char>>::empty());
    assert(fold_modifiers(l1.drop_last()) == 0);
    assert(l1.last() == word_ctrl());
    assert(part_modifier(word_ctrl()) == MOD_CONTROL);
    assert(fold_modifiers(l1) == 0u32 | MOD_CONTROL);
    assert(ls.last() == word_alt());
    assert(part_modifier(word_alt()) == MOD_ALT);
    assert(fold_modifiers(ls) == (0u32 | MOD_CONTROL) | MOD_ALT);
    assert((0u32 | 2u32) | 1u32 == 2u32 | 1u32) by (bit_vector);
}

/// The text `F1` to `F12`.
pub open spec fn function_key_text(n: nat) -> Seq<char> {
    if n < 10 {
        seq!['F', (0x30 + n) as char]
    } else {
        seq!['F', '1', (0x30 + n - 10) as char]
    }
}

proof fn lemma_split_push_no_plus(s: Seq<char>, q: Seq<char>)
    requires
        no_plus(q),
    ensures
        split_plus(s + seq!['+'] + q) == split_plus(s).push(q),
{
    let x = s + seq!['+'];
    assert(x =~= s.push('+'));
    assert(s.push('+').drop_last() =~= s);
    lemma_split_no_plus(s);
    assert(split_plus(x) == split_plus(s).push(Seq::<char>::empty()));
    lemma_split_append_no_plus(x, q);
    assert(Seq::<char>::empty() + q =~= q);
    assert(split_plus(x + q) =~= split_plus(s).push(q));
}

/// A last part `F1` to `F12` (in either case) names that function key, code
/// `0x6F` plus its number; the modifiers are those that the parts before it
/// name.
pub proof fn law_function_key_part(s: Seq<char>, n: nat)
    requires
        1 <= n <= 12,
    ensures
        hotkey_folded(s + seq!['+'] + function_key_text(n)) == Some(
            (fold_modifiers(folded_parts(split_plus(s))), (0x6F + n) as u32),
        ),
        hotkey_folded(s + seq!['+'] + ascii_lowercase(function_key_text(n))) == Some(
            (fold_modifiers(folded_parts(split_plus(s))), (0x6F + n) as u32),
        ),
{
    let q = function_key_text(n);
    let lq = ascii_lowercase(q);
    let digits = q.drop_first();
    let low = seq!['f'] + digits;
    assert(no_plus(q));
    assert(lq =~= low);
    assert(no_plus(lq));
    assert(!is_white_space(q[0]));
    assert(!is_white_space(q.last()));
    assert(q.drop_first() =~= digits);
    assert(trim_start(q) == q);
    assert(trim_end(q) == q);
    assert(trim_start(lq) == lq);
    assert(trim_end(lq) == lq);
    assert(is_ascii_text(q));
    assert(is_ascii_text(lq));
    lemma_lower_idempotent(q);
    assert(folded_part(q) == low);
    assert(folded_part(lq) == low);
    assert(!is_modifier_word(low)) by {
        assert(low[0] == 'f');
        assert(word_ctrl()[0] == 'c');
        assert(word_control()[0] == 'c');
        assert(word_alt()[0] == 'a');
        assert(word_shift()[0] == 's');
        assert(word_win()[0] == 'w');
        assert(word_super()[0] == 's');
    }
    assert(low.drop_first() =~= digits);
    assert(all_digits(digits));
    assert(digits_value(Seq::<char>::empty()) == 0);
    if n < 10 {
        assert(digits.drop_last() =~= Seq::<char>::empty());
        assert(digits.last() as u32 == 0x30 + n);
        assert(digits_value(digits) == n);
    } else {
        let one = seq!['1'];
        assert(digits.drop_last() =~= one);
        assert(one.drop_last() =~= Seq::<char>::empty());
        assert(one.last() as u32 == 0x31);
        assert(digits_value(one) == digits_value(one.drop_last()) * 10 + ((one.last() as u32) - 0x30) as nat);
        assert(digits_value(one) == 1);
        assert(digits.last() as u32 == 0x30 + n - 10);
        assert(digits_value(digits) == n);
    }
    assert(parse_u32(digits) == Some(n as u32));
    assert(part_key(low) == (0x6F + n) as u32);
    assert(part_modifier(low) == 0);
    let m = fold_modifiers(folded_parts(split_plus(s)));
    assert(m | 0 == m) by (bit_vector);
    let ps = split_plus(s);
    lemma_split_push_no_plus(s, q);
    lemma_split_push_no_plus(s, lq);
    assert(folded_parts(ps.push(q)) =~= folded_parts(ps).push(low));
    assert(folded_parts(ps.push(lq)) =~= folded_parts(ps).push(low));
    assert(folded_parts(ps).push(low).drop_last() =~= folded_parts(ps));
}

} // verus!
