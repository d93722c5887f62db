//! Small string helpers shared by the command handler and the codecs.

use vstd::prelude::*;
use vstd::utf8::{encode_utf8, decode_utf8};

verus! {

/// Compare two strings by content.
pub fn str_eq(a: &str, b: &str) -> (r: bool)
    ensures
        r == (a@ == b@),
{
    broadcast use vstd::utf8::encode_utf8_decode_utf8;

    let ab = a.as_bytes();
    let bb = b.as_bytes();
    if ab.len() != bb.len() {
        proof {
            if a@ == b@ {
                assert(encode_utf8(a@) == encode_utf8(b@));
            }
        }
        return false;
    }
    let mut i: usize = 0;
    while i < ab.len()
        invariant
            ab@ == encode_utf8(a@),
            bb@ == encode_utf8(b@),
            ab@.len() == bb@.len(),
            i <= ab@.len(),
            forall|j: int| 0 <= j < i ==> ab@[j] == bb@[j],
        decreases ab@.len() - i,
    {
        if ab[i] != bb[i] {
            proof {
                if a@ == b@ {
                    assert(encode_utf8(a@) == encode_utf8(b@));
                }
            }
            return false;
        }
        i = i + 1;
    }
    proof {
        assert(ab@ =~= bb@);
        assert(decode_utf8(encode_utf8(a@)) == a@);
        assert(decode_utf8(encode_utf8(b@)) == b@);
    }
    true
}


/// The character for one decimal digit.
pub open spec fn digit_char(d: int) -> char {
    if d == 0 {
        '0'
    } else if d == 1 {
        '1'
    } else if d == 2 {
        '2'
    } else if d == 3 {
        '3'
    } else if d == 4 {
        '4'
    } else if d == 5 {
        '5'
    } else if d == 6 {
        '6'
    } else if d == 7 {
        '7'
    } else if d == 8 {
        '8'
    } else {
        '9'
    }
}

/// The decimal digits of `n`, most significant first.
pub open spec fn dec_chars(n: nat) -> Seq<char>
    decreases n,
{
    if n < 10 {
        seq![digit_char(n as int)]
    } else {
        dec_chars(n / 10) + seq![digit_char((n % 10) as int)]
    }
}

/// One decimal digit as a string slice.
fn digit_str(d: u64) -> (r: &'static str)
    requires
        d < 10,
    ensures
        r@ == seq![digit_char(d as int)],
{
    proof {
        reveal_strlit("0");
        reveal_strlit("1");
        reveal_strlit("2");
        reveal_strlit("3");
        reveal_strlit("4");
        reveal_strlit("5");
        reveal_strlit("6");
        reveal_strlit("7");
        reveal_strlit("8");
        reveal_strlit("9");
    }
    let r = if d == 0 {
        "0"
    } else if d == 1 {
        "1"
    } else if d == 2 {
        "2"
    } else if d == 3 {
        "3"
    } else if d == 4 {
        "4"
    } else if d == 5 {
        "5"
    } else if d == 6 {
        "6"
    } else if d == 7 {
        "7"
    } else if d == 8 {
        "8"
    } else {
        "9"
    };
    proof {
        assert(r@ =~= seq![digit_char(d as int)]);
    }
    r
}

/// Render `n` in decimal.
pub fn u64_string(n: u64) -> (s: String)
    ensures
        s@ == dec_chars(n as nat),
    decreases n,
{
    if n < 10 {
        String::from_str(digit_str(n))
    } else {
        let mut s = u64_string(n / 10);
        s.append(digit_str(n % 10));
        s
    }
}

/// Render `n` in decimal as a 32-bit value.
pub fn u32_string(n: u32) -> (s: String)
    ensures
        s@ == dec_chars(n as nat),
{
    u64_string(n as u64)
}

/// The decimal rendering of a signed value: a minus sign before the
/// digits of its magnitude.
pub open spec fn int_chars(n: int) -> Seq<char> {
    if n < 0 {
        seq!['-'] + dec_chars((-n) as nat)
    } else {
        dec_chars(n as nat)
    }
}

/// Render a signed value in decimal.
pub fn i64_string(n: i64) -> (s: String)
    ensures
        s@ == int_chars(n as int),
{
    if n < 0 {
        proof {
            reveal_strlit("-");
        }
        let mut s = String::from_str("-");
        let mag: u64 = if n == i64::MIN {
            0x8000_0000_0000_0000
        } else {
            (-n) as u64
        };
        let m = u64_string(mag);
        s.append(m.as_str());
        proof {
            assert(mag as int == -(n as int));
            assert(s@ =~= int_chars(n as int));
        }
        s
    } else {
        let s = u64_string(n as u64);
        s
    }
}

/// Milliseconds rendered as seconds with one decimal, as in `2.5`.
pub open spec fn secs1_chars(ms: nat) -> Seq<char> {
    dec_chars(ms / 1000) + seq!['.'] + seq![digit_char(((ms % 1000) / 100) as int)]
}

/// Render milliseconds as seconds with one decimal place.
pub fn secs1_string(ms: u64) -> (s: String)
    ensures
        s@ == secs1_chars(ms as nat),
{
    let mut s = u64_string(ms / 1000);
    proof {
        reveal_strlit(".");
    }
    s.append(".");
    s.append(digit_str((ms % 1000) / 100));
    proof {
        assert(s@ =~= secs1_chars(ms as nat));
    }
    s
}

/// Milliseconds rendered as seconds with two decimals, as in `1.25`.
pub open spec fn secs2_chars(ms: nat) -> Seq<char> {
    dec_chars(ms / 1000) + seq!['.'] + seq![digit_char(((ms % 1000) / 100) as int)] + seq![
        digit_char((((ms % 1000) / 10) % 10) as int),
    ]
}

/// Render milliseconds as seconds with two decimal places.
pub fn secs2_string(ms: u64) -> (s: String)
    ensures
        s@ == secs2_chars(ms as nat),
{
    let mut s = u64_string(ms / 1000);
    proof {
        reveal_strlit(".");
    }
    s.append(".");
    s.append(digit_str((ms % 1000) / 100));
    s.append(digit_str(((ms % 1000) / 10) % 10));
    proof {
        assert(s@ =~= secs2_chars(ms as nat));
    }
    s
}

/// Saturating 64-bit addition.
pub open spec fn sat_add(a: nat, b: nat) -> nat {
    if a + b <= u64::MAX {
        a + b
    } else {
        u64::MAX as nat
    }
}

/// Add with saturation at the 64-bit limit.
pub fn sat_add64(a: u64, b: u64) -> (r: u64)
    ensures
        r == sat_add(a as nat, b as nat),
{
    if a <= u64::MAX - b {
        a + b
    } else {
        u64::MAX
    }
}


/// `needle` occurs contiguously inside `hay`.
pub open spec fn contains_sub(hay: Seq<char>, needle: Seq<char>) -> bool {
    exists|i: int|
        0 <= i <= hay.len() - needle.len() && #[trigger] hay.subrange(i, i + needle.len())
            == needle
}

/// Substring search by characters.
pub fn str_contains(hay: &str, needle: &str) -> (r: bool)
    ensures
        r == contains_sub(hay@, needle@),
{
    let hl = hay.unicode_len();
    let nl = needle.unicode_len();
    if nl > hl {
        proof {
            assert(!contains_sub(hay@, needle@));
        }
        return false;
    }
    if nl == 0 {
        proof {
            assert(hay@.subrange(0int, 0int + needle@.len()) =~= needle@);
        }
        return true;
    }
    let limit = hl - nl;
    let mut i: usize = 0;
    while i < limit + 1
        invariant
            hl == hay@.len(),
            nl == needle@.len(),
            1 <= nl <= hl,
            limit == hl - nl,
            i <= limit + 1,
            forall|k: int|
                0 <= k < i ==> #[trigger] hay@.subrange(k, k + needle@.len()) != needle@,
        decreases limit + 1 - i,
    {
        let mut j: usize = 0;
        let mut matched = true;
        while j < nl
            invariant
                hl == hay@.len(),
                nl == needle@.len(),
                nl <= hl,
                i <= hl - nl,
                i < hl,
                j <= nl,
                matched ==> forall|t: int| 0 <= t < j ==> hay@[i + t] == needle@[t],
                !matched ==> hay@.subrange(i as int, i + needle@.len()) != needle@,
            decreases nl - j,
        {
            if matched {
                let hc = hay.get_char(i + j);
                let nc = needle.get_char(j);
                if hc != nc {
                    proof {
                        assert(hay@.subrange(i as int, i + needle@.len())[j as int] == hay@[i + j]);
                    }
                    matched = false;
                }
            }
            j = j + 1;
        }
        if matched {
            proof {
                assert(hay@.subrange(i as int, i + needle@.len()) =~= needle@);
            }
            return true;
        }
        i = i + 1;
    }
    proof {
        assert forall|k: int| 0 <= k <= hay@.len() - needle@.len() implies #[trigger] hay@.subrange(
            k,
            k + needle@.len(),
        ) != needle@ by {}
    }
    false
}


/// The count of characters shown on a terminal: everything outside ANSI
/// escape sequences, which run from an escape character to the next `m`.
pub open spec fn vis_len(s: Seq<char>, in_escape: bool) -> nat
    decreases s.len(),
{
    if s.len() == 0 {
        0
    } else if s[0] == '\u{1b}' {
        vis_len(s.drop_first(), true)
    } else if in_escape {
        vis_len(s.drop_first(), s[0] != 'm')
    } else {
        1 + vis_len(s.drop_first(), false)
    }
}

/// Count the characters a terminal would show, skipping ANSI sequences.
pub fn visible_length(s: &str) -> (r: usize)
    ensures
        r == vis_len(s@, false),
{
    let n = s.unicode_len();
    let mut count: usize = 0;
    let mut in_escape = false;
    let mut i: usize = 0;
    proof {
        assert(s@.skip(0int) =~= s@);
    }
    while i < n
        invariant
            n == s@.len(),
            i <= n,
            count <= i,
            vis_len(s@, false) == count + vis_len(s@.skip(i as int), in_escape),
        decreases n - i,
    {
        let c = s.get_char(i);
        proof {
            assert(s@.skip(i as int)[0] == s@[i as int]);
            assert(s@.skip(i as int).drop_first() =~= s@.skip(i + 1));
        }
        if c == '\u{1b}' {
            in_escape = true;
        } else if in_escape {
            if c == 'm' {
                in_escape = false;
            }
        } else {
            count = count + 1;
        }
        i = i + 1;
    }
    proof {
        assert(s@.skip(n as int) =~= Seq::<char>::empty());
    }
    count
}

/// A run of `n` spaces.
pub open spec fn spaces(n: nat) -> Seq<char>
    decreases n,
{
    if n == 0 {
        Seq::<char>::empty()
    } else {
        spaces((n - 1) as nat) + seq![' ']
    }
}

/// Build a run of `n` spaces.
fn space_string(n: usize) -> (r: String)
    ensures
        r@ == spaces(n as nat),
{
    let mut r = String::new();
    let mut i: usize = 0;
    proof {
        reveal_strlit(" ");
    }
    while i < n
        invariant
            i <= n,
            r@ == spaces(i as nat),
        decreases n - i,
    {
        r.append(" ");
        proof {
            reveal_strlit(" ");
            assert(r@ =~= spaces((i + 1) as nat));
        }
        i = i + 1;
    }
    r
}

/// Center a string within `width` visible columns: half the slack as
/// leading spaces; a string at least as wide stays as it is.
pub fn center(s: &str, width: usize) -> (r: String)
    ensures
        ({
            let v = vis_len(s@, false);
            if v >= width {
                r@ == s@
            } else {
                r@ == spaces(((width - v) / 2) as nat) + s@
            }
        }),
{
    let v = visible_length(s);
    if v >= width {
        String::from_str(s)
    } else {
        let mut r = space_string((width - v) / 2);
        r.append(s);
        r
    }
}

/// Pad a string with trailing spaces to `width` visible columns.
pub fn pad_to(s: &str, width: usize) -> (r: String)
    ensures
        ({
            let v = vis_len(s@, false);
            if v >= width {
                r@ == s@
            } else {
                r@ == s@ + spaces((width - v) as nat)
            }
        }),
{
    let v = visible_length(s);
    if v >= width {
        String::from_str(s)
    } else {
        let mut r = String::from_str(s);
        let pad = space_string(width - v);
        r.append(pad.as_str());
        r
    }
}

} // verus!
