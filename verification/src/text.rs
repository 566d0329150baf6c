//! Character-level text helpers: ASCII case mapping, lexicographic order,
//! decimal rendering, and the one trusted conversion from ASCII bytes to a
//! `String`.

use vstd::prelude::*;
use vstd::utf8::is_ascii_chars;

verus! {

/// Lower-case a single character; only ASCII letters change.
pub open spec fn lower_char(c: char) -> char {
    if 'A' <= c && c <= 'Z' {
        ((c as u8) + 32) as char
    } else {
        c
    }
}

/// Upper-case a single character; only ASCII letters change.
pub open spec fn upper_char(c: char) -> char {
    if 'a' <= c && c <= 'z' {
        ((c as u8) - 32) as char
    } else {
        c
    }
}

/// Remove every repetition of `p` from the front of `s`, as
/// `str::trim_start_matches` does.
pub open spec fn strip_repeat(s: Seq<char>, p: Seq<char>) -> Seq<char>
    decreases s.len(),
{
    if p.len() > 0 && p.len() <= s.len() && s.subrange(0, p.len() as int) == p {
        strip_repeat(s.subrange(p.len() as int, s.len() as int), p)
    } else {
        s
    }
}

/// Lexicographic order on character sequences; a proper prefix comes first.
pub open spec fn lex_le(a: Seq<char>, b: Seq<char>) -> bool
    decreases a.len(),
{
    if a.len() == 0 {
        true
    } else if b.len() == 0 {
        false
    } else if a[0] != b[0] {
        a[0] < b[0]
    } else {
        lex_le(a.subrange(1, a.len() as int), b.subrange(1, b.len() as int))
    }
}

/// The decimal digits of `n`, most significant first, without leading zeros
/// (a single `'0'` for zero).
pub open spec fn spec_decimal(n: int) -> Seq<char>
    decreases n,
{
    if n < 10 {
        seq![((48 + n) as u8) as char]
    } else {
        spec_decimal(n / 10).push(((48 + n % 10) as u8) as char)
    }
}

/// Pascal-case a sequence of upper-case words separated by underscores:
/// underscores are dropped, the letter after each one is upper-cased, every
/// other letter is lower-cased.
pub open spec fn spec_pascal(s: Seq<char>, cap: bool) -> Seq<char>
    decreases s.len(),
{
    if s.len() == 0 {
        Seq::empty()
    } else if s[0] == '_' {
        spec_pascal(s.subrange(1, s.len() as int), true)
    } else if cap {
        seq![upper_char(s[0])] + spec_pascal(s.subrange(1, s.len() as int), false)
    } else {
        seq![lower_char(s[0])] + spec_pascal(s.subrange(1, s.len() as int), false)
    }
}

/// The field name of a capability: the `VK_` prefix dropped and the rest
/// lower-cased. Names that are not ASCII are kept as they are.
pub open spec fn spec_rust_name(s: Seq<char>) -> Seq<char> {
    if is_ascii_chars(s) {
        strip_repeat(s, "VK_"@).map_values(|c: char| lower_char(c))
    } else {
        s
    }
}

/// The variant name of a format: the `VK_FORMAT_` prefix dropped and the rest
/// pascal-cased. Names that are not ASCII are kept as they are.
pub open spec fn spec_format_rust_name(s: Seq<char>) -> Seq<char> {
    if is_ascii_chars(s) {
        spec_pascal(strip_repeat(s, "VK_FORMAT_"@), true)
    } else {
        s
    }
}

/// Relies on `String::from_utf8`: bytes below 128 are valid UTF-8, and decode
/// to one character per byte, each character the byte's code point.
#[verifier::external_body]
pub(crate) fn ascii_to_string(bytes: Vec<u8>) -> (r: String)
    requires
        forall|i: int| 0 <= i < bytes@.len() ==> bytes@[i] < 128,
    ensures
        r@.len() == bytes@.len(),
        forall|i: int| 0 <= i < bytes@.len() ==> r@[i] == bytes@[i] as char,
{
    match String::from_utf8(bytes) {
        Ok(s) => s,
        Err(_) => String::new(),
    }
}

/// Whether two string slices hold the same characters.
pub fn str_eq(a: &str, b: &str) -> (r: bool)
    ensures
        r == (a@ == b@),
{
    let a_len = a.unicode_len();
    let b_len = b.unicode_len();
    if a_len != b_len {
        proof {
            assert(a@.len() != b@.len());
        }
        return false;
    }
    let mut i: usize = 0;
    while i < a_len
        invariant
            a_len == a@.len(),
            b_len == b@.len(),
            a_len == b_len,
            i <= a_len,
            forall|j: int| 0 <= j < i ==> a@[j] == b@[j],
        decreases a_len - i,
    {
        if a.get_char(i) != b.get_char(i) {
            return false;
        }
        i += 1;
    }
    proof {
        assert(a@ =~= b@);
    }
    true
}

/// Whether `a` comes no later than `b` in lexicographic order.
pub fn str_le(a: &str, b: &str) -> (r: bool)
    ensures
        r == lex_le(a@, b@),
{
    let a_len = a.unicode_len();
    let b_len = b.unicode_len();
    proof {
        assert(a@.subrange(0, a_len as int) =~= a@);
        assert(b@.subrange(0, b_len as int) =~= b@);
    }
    let mut i: usize = 0;
    loop
        invariant
            a_len == a@.len(),
            b_len == b@.len(),
            i <= a_len,
            i <= b_len,
            lex_le(a@, b@) == lex_le(
                a@.subrange(i as int, a_len as int),
                b@.subrange(i as int, b_len as int),
            ),
        decreases a_len - i,
    {
        if i == a_len {
            proof {
                assert(a@.subrange(i as int, a_len as int).len() == 0);
            }
            return true;
        }
        if i == b_len {
            proof {
                assert(b@.subrange(i as int, b_len as int).len() == 0);
                assert(a@.subrange(i as int, a_len as int).len() > 0);
            }
            return false;
        }
        let ca = a.get_char(i);
        let cb = b.get_char(i);
        proof {
            let sa = a@.subrange(i as int, a_len as int);
            let sb = b@.subrange(i as int, b_len as int);
            assert(sa[0] == a@[i as int]);
            assert(sb[0] == b@[i as int]);
            assert(sa.subrange(1, sa.len() as int) =~= a@.subrange(
                i + 1,
                a_len as int,
            ));
            assert(sb.subrange(1, sb.len() as int) =~= b@.subrange(
                i + 1,
                b_len as int,
            ));
        }
        if ca != cb {
            return ca < cb;
        }
        i += 1;
    }
}

/// The index at which `s` no longer starts with a repetition of `p`.
fn strip_all(s: &str, p: &str) -> (start: usize)
    requires
        p@.len() > 0,
    ensures
        start <= s@.len(),
        strip_repeat(s@, p@) == s@.subrange(start as int, s@.len() as int),
{
    let s_len = s.unicode_len();
    let p_len = p.unicode_len();
    let mut start: usize = 0;
    proof {
        assert(s@.subrange(0, s_len as int) =~= s@);
    }
    loop
        invariant
            s_len == s@.len(),
            p_len == p@.len(),
            p_len > 0,
            start <= s_len,
            strip_repeat(s@, p@) == strip_repeat(
                s@.subrange(start as int, s_len as int),
                p@,
            ),
        decreases s_len - start,
    {
        let ghost t = s@.subrange(start as int, s_len as int);
        if p_len > s_len - start {
            proof {
                assert(strip_repeat(t, p@) == t);
            }
            return start;
        }
        let mut k: usize = 0;
        let mut matches = true;
        while k < p_len
            invariant
                s_len == s@.len(),
                p_len == p@.len(),
                start + p_len <= s_len,
                k <= p_len,
                t == s@.subrange(start as int, s_len as int),
                matches == (forall|j: int| 0 <= j < k ==> t[j] == p@[j]),
            decreases p_len - k,
        {
            if s.get_char(start + k) != p.get_char(k) {
                proof {
                    assert(t[k as int] == s@[start + k]);
                }
                matches = false;
                k = p_len;
            } else {
                proof {
                    assert(t[k as int] == s@[start + k]);
                }
                k += 1;
            }
        }
        if matches {
            proof {
                assert(t.subrange(0, p_len as int) =~= p@);
                assert(strip_repeat(t, p@) == strip_repeat(
                    t.subrange(p_len as int, t.len() as int),
                    p@,
                ));
                assert(t.subrange(p_len as int, t.len() as int) =~= s@.subrange(
                    (start + p_len) as int,
                    s_len as int,
                ));
            }
            start += p_len;
        } else {
            proof {
                let ghost j = choose|j: int| 0 <= j < p_len && t[j] != p@[j];
                assert(t.subrange(0, p_len as int)[j] == t[j]);
                assert(t.subrange(0, p_len as int) != p@);
                assert(strip_repeat(t, p@) == t);
            }
            return start;
        }
    }
}

/// The capability field name of `s`: the `VK_` prefix dropped and the rest
/// lower-cased.
pub fn rust_name_of(s: &str) -> (r: String)
    ensures
        r@ == spec_rust_name(s@),
{
    if !s.is_ascii() {
        return s.to_owned();
    }
    let len = s.unicode_len();
    proof {
        reveal_strlit("VK_");
    }
    let start = strip_all(s, "VK_");
    let mut out: Vec<u8> = Vec::new();
    let mut i: usize = start;
    while i < len
        invariant
            len == s@.len(),
            start <= i <= len,
            is_ascii_chars(s@),
            out@.len() == i - start,
            forall|j: int| 0 <= j < out@.len()
                ==> #[trigger] out@[j] == lower_char(s@[start + j]) as u8 && out@[j] < 128,
        decreases len - i,
    {
        let c = s.get_char(i);
        proof {
            assert('\0' <= s@[i as int] <= '\u{7f}');
        }
        let b = c as u8;
        let lb: u8 = if b >= 65 && b <= 90 {
            b + 32
        } else {
            b
        };
        proof {
            assert(lb == lower_char(s@[i as int]) as u8);
            assert(lb < 128);
        }
        out.push(lb);
        i += 1;
    }
    let r = ascii_to_string(out);
    proof {
        let stripped = s@.subrange(start as int, len as int);
        assert(r@ =~= stripped.map_values(|c: char| lower_char(c)));
    }
    r
}

/// The format variant name of `s`: the `VK_FORMAT_` prefix dropped and the
/// rest pascal-cased.
pub fn format_rust_name_of(s: &str) -> (r: String)
    ensures
        r@ == spec_format_rust_name(s@),
{
    if !s.is_ascii() {
        return s.to_owned();
    }
    let len = s.unicode_len();
    proof {
        reveal_strlit("VK_FORMAT_");
    }
    let start = strip_all(s, "VK_FORMAT_");
    let ghost stripped = s@.subrange(start as int, len as int);
    let mut out: Vec<u8> = Vec::new();
    let mut cap = true;
    let mut i: usize = start;
    while i < len
        invariant
            len == s@.len(),
            start <= i <= len,
            is_ascii_chars(s@),
            stripped == s@.subrange(start as int, len as int),
            forall|j: int| 0 <= j < out@.len() ==> #[trigger] out@[j] < 128,
            spec_pascal(stripped, true) == Seq::new(out@.len(), |k: int| out@[k] as char)
                + spec_pascal(s@.subrange(i as int, len as int), cap),
        decreases len - i,
    {
        let ghost rest = s@.subrange(i as int, len as int);
        let ghost out_chars = Seq::new(out@.len(), |k: int| out@[k] as char);
        let c = s.get_char(i);
        proof {
            assert('\0' <= s@[i as int] <= '\u{7f}');
            assert(rest[0] == s@[i as int]);
            assert(rest.subrange(1, rest.len() as int) =~= s@.subrange(
                i + 1,
                len as int,
            ));
        }
        let b = c as u8;
        if b == 95 {
            proof {
                assert(rest[0] == '_');
            }
            cap = true;
        } else {
            let nb: u8 = if cap {
                if b >= 97 && b <= 122 {
                    b - 32
                } else {
                    b
                }
            } else {
                if b >= 65 && b <= 90 {
                    b + 32
                } else {
                    b
                }
            };
            proof {
                assert(rest[0] != '_');
                if cap {
                    assert(nb == upper_char(s@[i as int]) as u8);
                } else {
                    assert(nb == lower_char(s@[i as int]) as u8);
                }
                assert(nb < 128);
            }
            out.push(nb);
            proof {
                assert(Seq::new(out@.len(), |k: int| out@[k] as char) =~= out_chars
                    + seq![nb as char]);
            }
            cap = false;
        }
        i += 1;
    }
    proof {
        assert(s@.subrange(len as int, len as int).len() == 0);
        assert(spec_pascal(stripped, true) =~= Seq::new(
            out@.len(),
            |k: int| out@[k] as char,
        ));
    }
    let r = ascii_to_string(out);
    proof {
        assert(r@ =~= spec_pascal(stripped, true));
    }
    r
}

/// Pascal-case a name of upper-case words separated by underscores. A name
/// that is not ASCII is returned as it is.
pub fn all_caps_to_pascal_case(name: &str) -> (r: String)
    ensures
        r@ == if is_ascii_chars(name@) {
            spec_pascal(name@, true)
        } else {
            name@
        },
{
    if !name.is_ascii() {
        return name.to_owned();
    }
    let len = name.unicode_len();
    let ghost whole = name@;
    let mut out: Vec<u8> = Vec::new();
    let mut cap = true;
    let mut i: usize = 0;
    proof {
        assert(whole.subrange(0, len as int) =~= whole);
    }
    while i < len
        invariant
            len == name@.len(),
            i <= len,
            is_ascii_chars(name@),
            whole == name@,
            forall|j: int| 0 <= j < out@.len() ==> #[trigger] out@[j] < 128,
            spec_pascal(whole, true) == Seq::new(out@.len(), |k: int| out@[k] as char)
                + spec_pascal(name@.subrange(i as int, len as int), cap),
        decreases len - i,
    {
        let ghost rest = name@.subrange(i as int, len as int);
        let ghost out_chars = Seq::new(out@.len(), |k: int| out@[k] as char);
        let c = name.get_char(i);
        proof {
            assert('\0' <= name@[i as int] <= '\u{7f}');
            assert(rest[0] == name@[i as int]);
            assert(rest.subrange(1, rest.len() as int) =~= name@.subrange(
                i + 1,
                len as int,
            ));
        }
        let b = c as u8;
        if b == 95 {
            proof {
                assert(rest[0] == '_');
            }
            cap = true;
        } else {
            let nb: u8 = if cap {
                if b >= 97 && b <= 122 {
                    b - 32
                } else {
                    b
                }
            } else {
                if b >= 65 && b <= 90 {
                    b + 32
                } else {
                    b
                }
            };
            proof {
                assert(rest[0] != '_');
                if cap {
                    assert(nb == upper_char(name@[i as int]) as u8);
                } else {
                    assert(nb == lower_char(name@[i as int]) as u8);
                }
                assert(nb < 128);
            }
            out.push(nb);
            proof {
                assert(Seq::new(out@.len(), |k: int| out@[k] as char) =~= out_chars
                    + seq![nb as char]);
            }
            cap = false;
        }
        i += 1;
    }
    proof {
        assert(name@.subrange(len as int, len as int).len() == 0);
        assert(spec_pascal(whole, true) =~= Seq::new(out@.len(), |k: int| out@[k] as char));
    }
    let r = ascii_to_string(out);
    proof {
        assert(r@ =~= spec_pascal(whole, true));
    }
    r
}

/// The decimal digits of `n` as a string.
pub fn u32_to_decimal(n: u32) -> (r: String)
    ensures
        r@ == spec_decimal(n as int),
{
    let mut digits: Vec<u8> = Vec::new();
    let mut m = n;
    while m >= 10
        invariant
            forall|k: int| 0 <= k < digits@.len() ==> (48 <= #[trigger] digits@[k] < 58),
            spec_decimal(n as int) == spec_decimal(m as int) + Seq::new(
                digits@.len(),
                |k: int| digits@[digits@.len() - 1 - k] as char,
            ),
        decreases m,
    {
        let d: u8 = (m % 10) as u8 + 48;
        digits.push(d);
        m = m / 10;
        proof {
            assert(spec_decimal(n as int) == spec_decimal(m as int) + Seq::new(
                digits@.len(),
                |k: int| digits@[digits@.len() - 1 - k] as char,
            )) by {
                let before = digits@.drop_last();
                assert(Seq::new(
                    digits@.len(),
                    |k: int| digits@[digits@.len() - 1 - k] as char,
                ) =~= seq![d as char] + Seq::new(
                    before.len(),
                    |k: int| before[before.len() - 1 - k] as char,
                ));
            }
        }
    }
    let d: u8 = m as u8 + 48;
    let mut out: Vec<u8> = Vec::new();
    out.push(d);
    proof {
        assert(seq![d as char] =~= spec_decimal(m as int));
    }
    let total = digits.len();
    let mut j: usize = 0;
    while j < total
        invariant
            total == digits@.len(),
            j <= total,
            forall|k: int| 0 <= k < digits@.len() ==> (48 <= #[trigger] digits@[k] < 58),
            d < 128,
            out@.len() == j + 1,
            out@[0] == d,
            forall|k: int| 1 <= k < out@.len() ==> out@[k] == digits@[total - k],
        decreases total - j,
    {
        out.push(digits[total - 1 - j]);
        j += 1;
    }
    proof {
        assert(forall|k: int| 0 <= k < out@.len() ==> #[trigger] out@[k] < 128);
    }
    let r = ascii_to_string(out);
    proof {
        assert(r@ =~= spec_decimal(m as int) + Seq::new(
            digits@.len(),
            |k: int| digits@[digits@.len() - 1 - k] as char,
        ));
    }
    r
}

} // verus!
