//! Helper functions: hexadecimal chunk-size rendering and the
//! `Transfer-Encoding` value detector.

use vstd::prelude::*;
use vstd::string::*;

verus! {

/// The uppercase hexadecimal digit for `d` (meaningful for `0 <= d < 16`).
pub open spec fn hex_digit_char(d: int) -> char {
    if d == 0 {
        '0'
    } else if d == 1 {
        '1'
    } else if d == 2 {
        '2'
    } else if d == 3 {
        '3'
    } else if d == 4 {
        '4'
    } else if d == 5 {
        '5'
    } else if d == 6 {
        '6'
    } else if d == 7 {
        '7'
    } else if d == 8 {
        '8'
    } else if d == 9 {
        '9'
    } else if d == 10 {
        'A'
    } else if d == 11 {
        'B'
    } else if d == 12 {
        'C'
    } else if d == 13 {
        'D'
    } else if d == 14 {
        'E'
    } else {
        'F'
    }
}

/// Uppercase hexadecimal rendering of `n`: minimal digit count, at least one
/// digit, no `0x` prefix.
pub open spec fn hex_chars(n: int) -> Seq<char>
    decreases n,
{
    if n < 16 {
        seq![hex_digit_char(n)]
    } else {
        hex_chars(n / 16).push(hex_digit_char(n % 16))
    }
}

/// The hexadecimal rendering never starts with a superfluous zero: it has at
/// least one digit, and a leading `'0'` occurs only for the value zero itself.
pub proof fn lemma_hex_no_leading_zeros(n: int)
    requires
        0 <= n,
    ensures
        hex_chars(n).len() >= 1,
        n == 0 ==> hex_chars(n) == seq!['0'],
        n > 0 ==> hex_chars(n)[0] != '0',
        (hex_chars(n).len() == 1) == (n < 16),
    decreases n,
{
    if n >= 16 {
        lemma_hex_no_leading_zeros(n / 16);
    }
}

/// The executable counterpart of `hex_digit_char`.
fn hex_digit_str(d: usize) -> (r: &'static str)
    requires
        d < 16,
    ensures
        r@ == seq![hex_digit_char(d as int)],
{
    let r: &'static str = if d == 0 {
        proof {
            reveal_strlit("0");
        }
        "0"
    } else if d == 1 {
        proof {
            reveal_strlit("1");
        }
        "1"
    } else if d == 2 {
        proof {
            reveal_strlit("2");
        }
        "2"
    } else if d == 3 {
        proof {
            reveal_strlit("3");
        }
        "3"
    } else if d == 4 {
        proof {
            reveal_strlit("4");
        }
        "4"
    } else if d == 5 {
        proof {
            reveal_strlit("5");
        }
        "5"
    } else if d == 6 {
        proof {
            reveal_strlit("6");
        }
        "6"
    } else if d == 7 {
        proof {
            reveal_strlit("7");
        }
        "7"
    } else if d == 8 {
        proof {
            reveal_strlit("8");
        }
        "8"
    } else if d == 9 {
        proof {
            reveal_strlit("9");
        }
        "9"
    } else if d == 10 {
        proof {
            reveal_strlit("A");
        }
        "A"
    } else if d == 11 {
        proof {
            reveal_strlit("B");
        }
        "B"
    } else if d == 12 {
        proof {
            reveal_strlit("C");
        }
        "C"
    } else if d == 13 {
        proof {
            reveal_strlit("D");
        }
        "D"
    } else if d == 14 {
        proof {
            reveal_strlit("E");
        }
        "E"
    } else {
        proof {
            reveal_strlit("F");
        }
        "F"
    };
    proof {
        assert(r@ =~= seq![hex_digit_char(d as int)]);
    }
    r
}

/// Renders `n` in uppercase hexadecimal, most significant digit first.
fn hex_string(n: usize) -> (r: String)
    ensures
        r@ == hex_chars(n as int),
    decreases n,
{
    if n < 16 {
        String::from_str(hex_digit_str(n))
    } else {
        let mut s = hex_string(n / 16);
        s.append(hex_digit_str(n % 16));
        proof {
            assert(s@ =~= hex_chars(n as int));
        }
        s
    }
}

/// The chunk-size line for a payload: the uppercase hexadecimal rendering of
/// its byte length, with no leading zeros beyond the minimum single digit.
pub fn chunk_size(bytes: &[u8]) -> (r: String)
    ensures
        r@ == hex_chars(bytes@.len() as int),
{
    hex_string(bytes.len())
}

/// A whitespace character, by its Unicode code point: the set that
/// `str::trim` removes.
pub open spec fn is_ws_char(c: char) -> bool {
    let u = c as u32;
    (9 <= u && u <= 13) || u == 0x20 || u == 0x85 || u == 0xa0 || u == 0x1680 || (0x2000 <= u
        && u <= 0x200a) || u == 0x2028 || u == 0x2029 || u == 0x202f || u == 0x205f || u == 0x3000
}

/// `s` with its leading whitespace removed.
pub open spec fn trim_start(s: Seq<char>) -> Seq<char>
    decreases s.len(),
{
    if s.len() > 0 && is_ws_char(s[0]) {
        trim_start(s.drop_first())
    } else {
        s
    }
}

/// `s` with its trailing whitespace removed.
pub open spec fn trim_end(s: Seq<char>) -> Seq<char>
    decreases s.len(),
{
    if s.len() > 0 && is_ws_char(s.last()) {
        trim_end(s.drop_last())
    } else {
        s
    }
}

/// `s` with its surrounding whitespace removed, as `str::trim` gives it.
pub open spec fn trim(s: Seq<char>) -> Seq<char> {
    trim_end(trim_start(s))
}

/// The lowercase token that designates chunked transfer-coding.
pub open spec fn chunked_token() -> Seq<char> {
    seq!['c', 'h', 'u', 'n', 'k', 'e', 'd']
}

/// `[lo, hi)` is one comma-separated segment of `s`: bounded by commas or by
/// the ends of `s`, with no comma inside.
pub open spec fn is_segment(s: Seq<char>, lo: int, hi: int) -> bool {
    &&& 0 <= lo <= hi <= s.len()
    &&& (lo == 0 || s[lo - 1] == ',')
    &&& (hi == s.len() || s[hi] == ',')
    &&& forall|k: int| lo <= k < hi ==> s[k] != ','
}

/// The value designates chunked coding: some comma-separated segment,
/// trimmed of surrounding whitespace, is exactly the token `chunked`.
pub open spec fn value_is_chunked(s: Seq<char>) -> bool {
    exists|lo: int, hi: int|
        is_segment(s, lo, hi) && #[trigger] trim(s.subrange(lo, hi)) == chunked_token()
}

/// Removing leading whitespace drops exactly the prefix before the first
/// non-whitespace character.
proof fn lemma_trim_start_at(s: Seq<char>, a: int)
    requires
        0 <= a <= s.len(),
        forall|k: int| 0 <= k < a ==> is_ws_char(#[trigger] s[k]),
        a == s.len() || !is_ws_char(s[a]),
    ensures
        trim_start(s) == s.subrange(a, s.len() as int),
    decreases a,
{
    if a == 0 {
        assert(trim_start(s) =~= s.subrange(0, s.len() as int));
    } else {
        assert(is_ws_char(s[0]));
        lemma_trim_start_at(s.drop_first(), a - 1);
        assert(s.drop_first().subrange(a - 1, s.drop_first().len() as int) =~= s.subrange(
            a,
            s.len() as int,
        ));
    }
}

/// Removing trailing whitespace drops exactly the suffix after the last
/// non-whitespace character.
proof fn lemma_trim_end_at(s: Seq<char>, b: int)
    requires
        0 <= b <= s.len(),
        forall|k: int| b <= k < s.len() ==> is_ws_char(#[trigger] s[k]),
        b == 0 || !is_ws_char(s[b - 1]),
    ensures
        trim_end(s) == s.subrange(0, b),
    decreases s.len() - b,
{
    if b == s.len() {
        assert(trim_end(s) =~= s.subrange(0, b));
    } else {
        assert(is_ws_char(s.last()));
        lemma_trim_end_at(s.drop_last(), b);
        assert(s.drop_last().subrange(0, b) =~= s.subrange(0, b));
    }
}

/// Trimming a sequence that is whitespace throughout leaves nothing.
proof fn lemma_trim_all_ws(s: Seq<char>)
    requires
        forall|k: int| 0 <= k < s.len() ==> is_ws_char(#[trigger] s[k]),
    ensures
        trim(s) == Seq::<char>::empty(),
{
    lemma_trim_start_at(s, s.len() as int);
    assert(s.subrange(s.len() as int, s.len() as int) =~= Seq::<char>::empty());
}

/// When whitespace surrounds the window `[a, b)` and the window's ends are
/// not whitespace, trimming yields exactly that window.
proof fn lemma_trim_is_window(s: Seq<char>, a: int, b: int)
    requires
        0 <= a < b <= s.len(),
        forall|k: int| 0 <= k < a ==> is_ws_char(#[trigger] s[k]),
        forall|k: int| b <= k < s.len() ==> is_ws_char(#[trigger] s[k]),
        !is_ws_char(s[a]),
        !is_ws_char(s[b - 1]),
    ensures
        trim(s) == s.subrange(a, b),
{
    lemma_trim_start_at(s, a);
    let t = s.subrange(a, s.len() as int);
    assert(forall|k: int| b - a <= k < t.len() ==> is_ws_char(#[trigger] t[k]));
    lemma_trim_end_at(t, b - a);
    assert(t.subrange(0, b - a) =~= s.subrange(a, b));
}

/// A segment is determined by its right end: two segments that end at the
/// same place start at the same place.
proof fn lemma_segment_unique(s: Seq<char>, lo1: int, lo2: int, hi: int)
    requires
        is_segment(s, lo1, hi),
        is_segment(s, lo2, hi),
    ensures
        lo1 == lo2,
{
    if lo1 < lo2 {
        assert(s[lo2 - 1] == ',');
    }
    if lo2 < lo1 {
        assert(s[lo1 - 1] == ',');
    }
}

/// Whether `c` is whitespace, as `str::trim` decides it.
fn is_whitespace_char(c: char) -> (r: bool)
    ensures
        r == is_ws_char(c),
{
    let u = c as u32;
    (9 <= u && u <= 13) || u == 0x20 || u == 0x85 || u == 0xa0 || u == 0x1680 || (0x2000 <= u
        && u <= 0x200a) || u == 0x2028 || u == 0x2029 || u == 0x202f || u == 0x205f || u == 0x3000
}

/// Collects the characters of `s` for random access.
fn collect_chars(s: &str) -> (r: Vec<char>)
    ensures
        r@ == s@,
{
    let n = s.unicode_len();
    let mut r: Vec<char> = Vec::new();
    let mut i: usize = 0;
    while i < n
        invariant
            n == s@.len(),
            0 <= i <= n,
            r@ == s@.subrange(0, i as int),
        decreases n - i,
    {
        let c = s.get_char(i);
        proof {
            assert(r@.push(s@[i as int]) =~= s@.subrange(0, i as int + 1));
        }
        r.push(c);
        i += 1;
    }
    proof {
        assert(r@ =~= s@);
    }
    r
}

/// Whether segment `[lo, hi)` of `s`, trimmed of surrounding whitespace, is
/// exactly the token `chunked`.
fn segment_is_chunked(s: &Vec<char>, lo: usize, hi: usize) -> (r: bool)
    requires
        lo <= hi <= s@.len(),
    ensures
        r == (trim(s@.subrange(lo as int, hi as int)) == chunked_token()),
{
    let ghost seg = s@.subrange(lo as int, hi as int);
    let mut a = lo;
    while a < hi && is_whitespace_char(s[a])
        invariant
            lo <= a <= hi <= s@.len(),
            forall|k: int| lo <= k < a ==> is_ws_char(#[trigger] s@[k]),
        decreases hi - a,
    {
        a += 1;
    }
    if a == hi {
        proof {
            assert forall|k: int| 0 <= k < seg.len() implies is_ws_char(#[trigger] seg[k]) by {
                assert(seg[k] == s@[lo + k]);
            }
            lemma_trim_all_ws(seg);
            assert(trim(seg).len() == 0);
            assert(chunked_token().len() == 7);
        }
        return false;
    }
    let mut b = hi;
    while is_whitespace_char(s[b - 1])
        invariant
            lo <= a < b <= hi <= s@.len(),
            !is_ws_char(s@[a as int]),
            forall|k: int| b <= k < hi ==> is_ws_char(#[trigger] s@[k]),
        decreases b,
    {
        b -= 1;
    }
    proof {
        assert forall|k: int| 0 <= k < a - lo implies is_ws_char(#[trigger] seg[k]) by {
            assert(seg[k] == s@[lo + k]);
        }
        assert forall|k: int| b - lo <= k < seg.len() implies is_ws_char(#[trigger] seg[k]) by {
            assert(seg[k] == s@[lo + k]);
        }
        lemma_trim_is_window(seg, a as int - lo as int, b as int - lo as int);
        assert(trim(seg) =~= s@.subrange(a as int, b as int));
    }
    if b - a != 7 {
        return false;
    }
    let matched = s[a] == 'c' && s[a + 1] == 'h' && s[a + 2] == 'u' && s[a + 3] == 'n' && s[a + 4]
        == 'k' && s[a + 5] == 'e' && s[a + 6] == 'd';
    proof {
        if matched {
            assert(trim(seg) =~= chunked_token());
        } else {
            assert(trim(seg) != chunked_token()) by {
                if trim(seg) == chunked_token() {
                    assert(s@.subrange(a as int, b as int) == chunked_token());
                    assert(s@[a as int] == chunked_token()[0]);
                    assert(s@[a as int + 1] == chunked_token()[1]);
                    assert(s@[a as int + 2] == chunked_token()[2]);
                    assert(s@[a as int + 3] == chunked_token()[3]);
                    assert(s@[a as int + 4] == chunked_token()[4]);
                    assert(s@[a as int + 5] == chunked_token()[5]);
                    assert(s@[a as int + 6] == chunked_token()[6]);
                }
            }
        }
    }
    matched
}

/// Whether a `Transfer-Encoding` value designates chunked coding: some
/// element of the comma-separated list, trimmed of surrounding whitespace,
/// is exactly the case-sensitive token `chunked`.
pub fn transfer_encoding_value_is_chunked(value: &str) -> (r: bool)
    ensures
        r == value_is_chunked(value@),
{
    let chars = collect_chars(value);
    let n = chars.len();
    let mut seg_start: usize = 0;
    let mut i: usize = 0;
    while i < n
        invariant
            n == chars@.len(),
            chars@ == value@,
            0 <= seg_start <= i <= n,
            seg_start == 0 || (seg_start - 1 < n && chars@[seg_start as int - 1] == ','),
            forall|k: int| seg_start <= k < i ==> chars@[k] != ',',
            forall|lo: int, hi: int|
                is_segment(value@, lo, hi) && hi < i ==> #[trigger] trim(value@.subrange(lo, hi))
                    != chunked_token(),
        decreases n - i,
    {
        if chars[i] == ',' {
            if segment_is_chunked(&chars, seg_start, i) {
                proof {
                    assert(is_segment(value@, seg_start as int, i as int));
                }
                return true;
            }
            proof {
                assert forall|lo: int, hi: int|
                    is_segment(value@, lo, hi) && hi < i + 1 implies #[trigger] trim(
                    value@.subrange(lo, hi),
                ) != chunked_token() by {
                    if hi == i {
                        lemma_segment_unique(value@, lo, seg_start as int, i as int);
                    }
                }
            }
            seg_start = i + 1;
        } else {
            proof {
                assert forall|lo: int, hi: int|
                    is_segment(value@, lo, hi) && hi < i + 1 implies #[trigger] trim(
                    value@.subrange(lo, hi),
                ) != chunked_token() by {
                    if hi == i {
                        assert(value@[i as int] == ',');
                    }
                }
            }
        }
        i += 1;
    }
    if segment_is_chunked(&chars, seg_start, n) {
        proof {
            assert(is_segment(value@, seg_start as int, n as int));
        }
        return true;
    }
    proof {
        assert forall|lo: int, hi: int| is_segment(value@, lo, hi) implies #[trigger] trim(
            value@.subrange(lo, hi),
        ) != chunked_token() by {
            if hi == n {
                lemma_segment_unique(value@, lo, seg_start as int, n as int);
            }
        }
        assert(!value_is_chunked(value@));
    }
    false
}

} // verus!
