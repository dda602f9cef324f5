//! Small verified helpers over strings and character vectors that the
//! rest of the crate builds on.

use vstd::prelude::*;
use vstd::string::StrSliceExecFns;

verus! {

/// Compares two string slices character by character.
pub fn str_eq(a: &str, b: &str) -> (r: bool)
    ensures
        r == (a@ == b@),
{
    let na = a.unicode_len();
    let nb = b.unicode_len();
    if na != nb {
        assert(a@ != b@) by {
            assert(a@.len() != b@.len());
        }
        return false;
    }
    let mut i: usize = 0;
    while i < na
        invariant
            na == a@.len(),
            na == b@.len(),
            i <= na,
            forall|j: int| 0 <= j < i ==> a@[j] == b@[j],
        decreases na - i,
    {
        if a.get_char(i) != b.get_char(i) {
            return false;
        }
        i += 1;
    }
    assert(a@ =~= b@);
    true
}

/// Collects the characters of a string slice into a vector.
pub fn to_chars(s: &str) -> (r: Vec<char>)
    ensures
        r@ == s@,
{
    let n = s.unicode_len();
    let mut r: Vec<char> = Vec::new();
    let mut i: usize = 0;
    while i < n
        invariant
            n == s@.len(),
            i <= n,
            r@ == s@.subrange(0, i as int),
        decreases n - i,
    {
        r.push(s.get_char(i));
        assert(r@ =~= s@.subrange(0, i + 1 as int));
        i += 1;
    }
    assert(r@ =~= s@);
    r
}

/// Relies on `String::push`: appends one character at the end of the string.
#[verifier::external_body]
pub(crate) fn push_char(s: &mut String, c: char)
    ensures
        final(s)@ == old(s)@.push(c),
{
    s.push(c)
}

/// Builds a string out of a character vector.
pub fn from_chars(v: &Vec<char>) -> (r: String)
    ensures
        r@ == v@,
{
    let mut r = String::new();
    let mut i: usize = 0;
    while i < v.len()
        invariant
            i <= v@.len(),
            r@ == v@.subrange(0, i as int),
        decreases v@.len() - i,
    {
        push_char(&mut r, v[i]);
        assert(r@ =~= v@.subrange(0, i + 1 as int));
        i += 1;
    }
    assert(r@ =~= v@);
    r
}

// ---------------------------------------------------------------------------
// Case folding, containment, replacement
// ---------------------------------------------------------------------------

/// ASCII lower-casing of one character.
pub open spec fn lower_char(c: char) -> char {
    if 'A' <= c && c <= 'Z' {
        ((c as u32) + 32) as char
    } else {
        c
    }
}

pub open spec fn spec_lower(s: Seq<char>) -> Seq<char> {
    s.map_values(|c: char| lower_char(c))
}

/// ASCII lower-casing of a string.
pub fn to_lower_ascii(s: &str) -> (r: String)
    ensures
        r@ == spec_lower(s@),
{
    let v = to_chars(s);
    let mut out: Vec<char> = Vec::new();
    let mut i: usize = 0;
    while i < v.len()
        invariant
            i <= v@.len(),
            v@ == s@,
            out@ == spec_lower(s@).subrange(0, i as int),
        decreases v@.len() - i,
    {
        let c = v[i];
        if 'A' <= c && c <= 'Z' {
            let u: u32 = c as u32;
            let l: char = ((u + 32) as u8) as char;
            proof {
                assert(l == lower_char(c));
            }
            out.push(l);
        } else {
            out.push(c);
        }
        proof {
            assert(out@ =~= spec_lower(s@).subrange(0, i + 1 as int));
        }
        i += 1;
    }
    proof {
        assert(out@ =~= spec_lower(s@));
    }
    from_chars(&out)
}

/// The pattern occurs somewhere in the text.
pub open spec fn spec_contains(s: Seq<char>, pat: Seq<char>) -> bool {
    exists|i: int|
        0 <= i && i + pat.len() <= s.len() && #[trigger] s.subrange(i, i + pat.len()) == pat
}

/// Whether `pat` occurs in `s`.
pub fn contains_sub(s: &str, pat: &str) -> (r: bool)
    ensures
        r == spec_contains(s@, pat@),
{
    let v = to_chars(s);
    let p = to_chars(pat);
    let n = v.len();
    let m = p.len();
    if m > n {
        proof {
            assert(!spec_contains(s@, pat@));
        }
        return false;
    }
    if m == 0 {
        proof {
            assert(spec_contains(s@, pat@)) by {
                assert(s@.subrange(0, 0 + pat@.len() as int) =~= pat@);
            }
        }
        return true;
    }
    let mut i: usize = 0;
    while i <= n - m
        invariant
            1 <= m <= n,
            n == v@.len(),
            m == p@.len(),
            v@ == s@,
            p@ == pat@,
            i <= n - m + 1,
            forall|k: int| 0 <= k < i ==> #[trigger] s@.subrange(k, k + m) != pat@,
        decreases n - i,
    {
        let mut j: usize = 0;
        let mut matched = true;
        while j < m
            invariant
                i + m <= n,
                n == v@.len(),
                m == p@.len(),
                v@ == s@,
                p@ == pat@,
                j <= m,
                matched ==> forall|k: int| 0 <= k < j ==> s@[i + k] == pat@[k],
                !matched ==> s@.subrange(i as int, i + m) != pat@,
            decreases m - j,
        {
            if v[i + j] != p[j] {
                proof {
                    assert(s@.subrange(i as int, i + m)[j as int] == s@[i + j]);
                }
                matched = false;
                j = m;
            } else {
                j += 1;
            }
        }
        if matched {
            proof {
                assert(s@.subrange(i as int, i + m) =~= pat@);
            }
            return true;
        }
        i += 1;
    }
    proof {
        assert forall|k: int| 0 <= k && k + m <= n implies #[trigger] s@.subrange(k, k + m)
            != pat@ by {
            assert(k < i);
        }
    }
    false
}

/// Case-insensitive containment, folding both sides to ASCII lower case.
pub fn contains_ci(s: &str, pat: &str) -> (r: bool)
    ensures
        r == spec_contains(spec_lower(s@), spec_lower(pat@)),
{
    let ls = to_lower_ascii(s);
    let lp = to_lower_ascii(pat);
    contains_sub(ls.as_str(), lp.as_str())
}

/// Left-to-right, non-overlapping replacement of every occurrence of `pat`
/// by `rep`; the empty pattern replaces nothing.
pub open spec fn spec_replace_all(s: Seq<char>, pat: Seq<char>, rep: Seq<char>) -> Seq<char>
    decreases s.len(),
{
    if pat.len() == 0 || s.len() < pat.len() {
        s
    } else if s.subrange(0, pat.len() as int) == pat {
        rep + spec_replace_all(s.skip(pat.len() as int), pat, rep)
    } else {
        seq![s[0]] + spec_replace_all(s.drop_first(), pat, rep)
    }
}

/// Replaces every occurrence of `pat` in `s` by `rep`, left to right and
/// without overlap.
#[verifier::loop_isolation(false)]
#[verifier::rlimit(80)]
pub fn replace_all(s: &str, pat: &str, rep: &str) -> (r: String)
    ensures
        r@ == spec_replace_all(s@, pat@, rep@),
{
    let v = to_chars(s);
    let p = to_chars(pat);
    let w = to_chars(rep);
    let n = v.len();
    let m = p.len();
    if m == 0 {
        return s.to_owned();
    }
    let mut out: Vec<char> = Vec::new();
    let mut i: usize = 0;
    proof {
        assert(v@.skip(0) =~= v@);
    }
    while i < n
        invariant
            i <= n,
            out@ + spec_replace_all(v@.skip(i as int), pat@, rep@) == spec_replace_all(
                s@,
                pat@,
                rep@,
            ),
        decreases n - i,
    {
        let mut j: usize = 0;
        let mut matched = m <= n - i;
        while j < m && matched
            invariant
                j <= m,
                i + m <= n || !matched,
                matched ==> forall|k: int| 0 <= k < j ==> v@[i + k] == pat@[k],
                !matched ==> (i + m > n || v@.skip(i as int).subrange(0, m as int) != pat@),
            decreases m - j,
        {
            if v[i + j] != p[j] {
                proof {
                    assert(v@.skip(i as int).subrange(0, m as int)[j as int] == v@[i + j]);
                }
                matched = false;
                j = m;
            } else {
                j += 1;
            }
        }
        if matched {
            proof {
                assert(v@.skip(i as int).subrange(0, m as int) =~= pat@);
                assert(v@.skip(i as int).skip(m as int) =~= v@.skip(i + m));
            }
            let ghost out0 = out@;
            let mut k: usize = 0;
            while k < w.len()
                invariant
                    k <= w@.len(),
                    out@ == out0 + rep@.subrange(0, k as int),
                decreases w@.len() - k,
            {
                out.push(w[k]);
                proof {
                    assert(out@ =~= out0 + rep@.subrange(0, k + 1 as int));
                }
                k += 1;
            }
            proof {
                assert(rep@.subrange(0, rep@.len() as int) =~= rep@);
                assert(out0 + rep@ + spec_replace_all(v@.skip(i + m), pat@, rep@) =~= out0 + (rep@
                    + spec_replace_all(v@.skip(i + m), pat@, rep@)));
            }
            i = i + m;
        } else {
            out.push(v[i]);
            proof {
                assert(v@.skip(i as int)[0] == v@[i as int]);
                assert(v@.skip(i as int).drop_first() =~= v@.skip(i + 1));
                assert(seq![v@[i as int]] + v@.skip(i + 1) =~= v@.skip(i as int));
            }
            i += 1;
        }
    }
    proof {
        assert(spec_replace_all(v@.skip(n as int), pat@, rep@) =~= v@.skip(n as int));
        assert(out@ =~= spec_replace_all(s@, pat@, rep@));
    }
    from_chars(&out)
}

// ---------------------------------------------------------------------------
// Whitespace: trimming and splitting
// ---------------------------------------------------------------------------

pub open spec fn is_ws(c: char) -> bool {
    c == ' ' || c == '\t' || c == '\n' || c == '\r'
}

pub open spec fn trim_start_spec(s: Seq<char>) -> Seq<char>
    decreases s.len(),
{
    if s.len() > 0 && is_ws(s[0]) {
        trim_start_spec(s.drop_first())
    } else {
        s
    }
}

pub open spec fn trim_end_spec(s: Seq<char>) -> Seq<char>
    decreases s.len(),
{
    if s.len() > 0 && is_ws(s.last()) {
        trim_end_spec(s.drop_last())
    } else {
        s
    }
}

/// The text with leading and trailing whitespace removed.
pub open spec fn spec_trim(s: Seq<char>) -> Seq<char> {
    trim_end_spec(trim_start_spec(s))
}

fn ws_char(c: char) -> (r: bool)
    ensures
        r == is_ws(c),
{
    c == ' ' || c == '\t' || c == '\n' || c == '\r'
}

/// Trims ASCII whitespace from both ends.
#[verifier::loop_isolation(false)]
pub fn trim(s: &str) -> (r: String)
    ensures
        r@ == spec_trim(s@),
{
    let v = to_chars(s);
    let n = v.len();
    let mut a: usize = 0;
    proof {
        assert(v@.skip(0) =~= v@);
    }
    while a < n && ws_char(v[a])
        invariant
            a <= n,
            trim_start_spec(v@) == trim_start_spec(v@.skip(a as int)),
        decreases n - a,
    {
        proof {
            assert(v@.skip(a as int)[0] == v@[a as int]);
            assert(v@.skip(a as int).drop_first() =~= v@.skip(a + 1));
        }
        a += 1;
    }
    let ghost t = v@.skip(a as int);
    proof {
        assert(trim_start_spec(v@) == t);
    }
    let mut b: usize = n;
    proof {
        assert(t.take(n - a as int) =~= t);
    }
    while b > a && ws_char(v[b - 1])
        invariant
            a <= b <= n,
            trim_end_spec(t) == trim_end_spec(t.take(b - a as int)),
        decreases b,
    {
        proof {
            assert(t.take(b - a as int).last() == v@[b - 1]);
            assert(t.take(b - a as int).drop_last() =~= t.take(b - 1 - a as int));
        }
        b -= 1;
    }
    proof {
        if b > a {
            assert(t.take(b - a as int).last() == v@[b - 1]);
        }
        assert(trim_end_spec(t.take(b - a as int)) == t.take(b - a as int));
        assert(t.take(b - a as int) =~= v@.subrange(a as int, b as int));
    }
    let mut out: Vec<char> = Vec::new();
    let mut k: usize = a;
    while k < b
        invariant
            a <= k <= b <= n,
            out@ == v@.subrange(a as int, k as int),
        decreases b - k,
    {
        out.push(v[k]);
        proof {
            assert(out@ =~= v@.subrange(a as int, k + 1 as int));
        }
        k += 1;
    }
    proof {
        assert(out@ =~= v@.subrange(a as int, b as int));
    }
    from_chars(&out)
}

/// First position at or after `i` whose character is whitespace.
pub open spec fn scan_word_end(s: Seq<char>, i: int) -> int
    decreases s.len() - i,
{
    if 0 <= i < s.len() && !is_ws(s[i]) {
        scan_word_end(s, i + 1)
    } else {
        i
    }
}

pub proof fn lemma_scan_word_end_bounds(s: Seq<char>, i: int)
    requires
        0 <= i <= s.len(),
    ensures
        i <= scan_word_end(s, i) <= s.len(),
    decreases s.len() - i,
{
    if i < s.len() && !is_ws(s[i]) {
        lemma_scan_word_end_bounds(s, i + 1);
    }
}

/// The whitespace-delimited words of the text from position `i` on.
pub open spec fn words_from(s: Seq<char>, i: int) -> Seq<Seq<char>>
    decreases s.len() - i,
        via words_from_decreases
{
    if !(0 <= i < s.len()) {
        Seq::empty()
    } else if is_ws(s[i]) {
        words_from(s, i + 1)
    } else {
        let e = scan_word_end(s, i + 1);
        seq![s.subrange(i, e)] + words_from(s, e)
    }
}

#[via_fn]
proof fn words_from_decreases(s: Seq<char>, i: int) {
    if 0 <= i < s.len() {
        lemma_scan_word_end_bounds(s, i + 1);
    }
}

pub open spec fn spec_split_ws(s: Seq<char>) -> Seq<Seq<char>> {
    words_from(s, 0)
}

pub open spec fn string_views(v: Seq<String>) -> Seq<Seq<char>> {
    v.map_values(|x: String| x@)
}

/// Splits the text into its whitespace-delimited words.
#[verifier::loop_isolation(false)]
pub fn split_ws(s: &str) -> (r: Vec<String>)
    ensures
        string_views(r@) == spec_split_ws(s@),
{
    let v = to_chars(s);
    let n = v.len();
    let mut out: Vec<String> = Vec::new();
    let mut i: usize = 0;
    while i < n
        invariant
            i <= n,
            string_views(out@) + words_from(v@, i as int) == spec_split_ws(s@),
        decreases n - i,
    {
        if ws_char(v[i]) {
            i += 1;
        } else {
            let mut j = i + 1;
            while j < n && !ws_char(v[j])
                invariant
                    i + 1 <= j <= n,
                    scan_word_end(v@, i + 1 as int) == scan_word_end(v@, j as int),
                decreases n - j,
            {
                j += 1;
            }
            proof {
                assert(scan_word_end(v@, i + 1 as int) == j);
            }
            let mut wchars: Vec<char> = Vec::new();
            let mut k: usize = i;
            while k < j
                invariant
                    i <= k <= j <= n,
                    wchars@ == v@.subrange(i as int, k as int),
                decreases j - k,
            {
                wchars.push(v[k]);
                proof {
                    assert(wchars@ =~= v@.subrange(i as int, k + 1 as int));
                }
                k += 1;
            }
            let word = from_chars(&wchars);
            out.push(word);
            proof {
                assert(string_views(out@) =~= string_views(out@.drop_last()) + seq![
                    v@.subrange(i as int, j as int),
                ]);
                assert(string_views(out@) + words_from(v@, j as int) =~= string_views(
                    out@.drop_last(),
                ) + (seq![v@.subrange(i as int, j as int)] + words_from(v@, j as int)));
            }
            i = j;
        }
    }
    proof {
        assert(string_views(out@) =~= spec_split_ws(s@));
    }
    out
}

// ---------------------------------------------------------------------------
// Decimal integers
// ---------------------------------------------------------------------------

pub open spec fn dec_digit(c: char) -> bool {
    '0' <= c && c <= '9'
}

pub open spec fn all_dec_digits(s: Seq<char>) -> bool {
    forall|i: int| 0 <= i < s.len() ==> dec_digit(#[trigger] s[i])
}

/// The value of a run of decimal digits.
pub open spec fn digits_val(s: Seq<char>) -> int
    decreases s.len(),
{
    if s.len() == 0 {
        0
    } else {
        digits_val(s.drop_last()) * 10 + (s.last() as int - '0' as int)
    }
}

/// What parsing the text as a (mathematical) decimal integer yields: an
/// optional sign followed by at least one digit, and nothing else.
pub open spec fn spec_parse_int(s: Seq<char>) -> Option<int> {
    if s.len() > 0 && s[0] == '-' {
        let d = s.drop_first();
        if d.len() > 0 && all_dec_digits(d) {
            Some(-digits_val(d))
        } else {
            None
        }
    } else if s.len() > 0 && s[0] == '+' {
        let d = s.drop_first();
        if d.len() > 0 && all_dec_digits(d) {
            Some(digits_val(d))
        } else {
            None
        }
    } else if s.len() > 0 && all_dec_digits(s) {
        Some(digits_val(s))
    } else {
        None
    }
}

/// Parsing as `i64`: the integer value where it exists and fits.
pub open spec fn spec_parse_i64(s: Seq<char>) -> Option<i64> {
    match spec_parse_int(s) {
        Some(v) => if i64::MIN <= v <= i64::MAX {
            Some(v as i64)
        } else {
            None
        },
        None => None,
    }
}

/// The value an integer literal contributes: its parsed value, or zero
/// where the text does not parse or does not fit.
pub open spec fn spec_int_literal_value(s: Seq<char>) -> i64 {
    match spec_parse_i64(s) {
        Some(v) => v,
        None => 0,
    }
}

pub proof fn lemma_digits_val_nonneg(s: Seq<char>)
    requires
        all_dec_digits(s),
    ensures
        digits_val(s) >= 0,
    decreases s.len(),
{
    if s.len() > 0 {
        assert(all_dec_digits(s.drop_last())) by {
            assert(forall|i: int|
                0 <= i < s.len() - 1 ==> dec_digit(#[trigger] s.drop_last()[i]) == dec_digit(
                    s[i],
                ));
        }
        lemma_digits_val_nonneg(s.drop_last());
    }
}

/// Parses the text as an `i64`, exactly as `spec_parse_i64` says.
#[verifier::loop_isolation(false)]
pub fn parse_i64(s: &str) -> (r: Option<i64>)
    ensures
        r == spec_parse_i64(s@),
{
    let v = to_chars(s);
    let n = v.len();
    if n == 0 {
        return None;
    }
    let c0 = v[0];
    let neg: bool = c0 == '-';
    let start: usize = if c0 == '-' || c0 == '+' {
        1
    } else {
        0
    };
    if start >= n {
        return None;
    }
    let ghost digits = v@.subrange(start as int, n as int);
    proof {
        if start == 1 {
            assert(digits =~= s@.drop_first());
        } else {
            assert(digits =~= s@);
        }
    }
    let mut acc: u64 = 0;
    let mut too_big = false;
    let mut i = start;
    while i < n
        invariant
            start <= i <= n,
            n == v@.len(),
            digits == v@.subrange(start as int, n as int),
            forall|j: int| start <= j < i ==> dec_digit(#[trigger] v@[j]),
            !too_big ==> acc == digits_val(v@.subrange(start as int, i as int)),
            too_big ==> digits_val(v@.subrange(start as int, i as int)) > u64::MAX,
        decreases n - i,
    {
        let c = v[i];
        if !('0' <= c && c <= '9') {
            proof {
                assert(digits[i - start] == v@[i as int]);
                assert(!all_dec_digits(digits));
            }
            return None;
        }
        let d: u64 = (c as u32 - '0' as u32) as u64;
        let ghost pre = v@.subrange(start as int, i as int);
        let ghost post = v@.subrange(start as int, i + 1 as int);
        proof {
            assert(post.drop_last() =~= pre);
            assert(post.last() == v@[i as int]);
            assert(digits_val(post) == digits_val(pre) * 10 + d);
            assert(all_dec_digits(pre));
            lemma_digits_val_nonneg(pre);
        }
        if too_big {
            proof {
                assert(digits_val(pre) * 10 >= digits_val(pre)) by {
                    assert(digits_val(pre) > 0);
                    assert(digits_val(pre) * 10 == digits_val(pre) * 9 + digits_val(pre));
                    assert(digits_val(pre) * 9 >= 0) by (nonlinear_arith)
                        requires
                            digits_val(pre) > 0,
                    ;
                }
            }
        } else {
            let limit = (u64::MAX - d) / 10;
            proof {
                let m = (u64::MAX - d) as int;
                assert(m == 10 * (m / 10) + m % 10) by {
                    vstd::arithmetic::div_mod::lemma_fundamental_div_mod(m, 10);
                }
            }
            if acc > limit {
                too_big = true;
                proof {
                    let m = (u64::MAX - d) as int;
                    let q = m / 10;
                    assert(acc >= q + 1);
                    assert(10 * acc >= 10 * (q + 1));
                    assert(10 * acc > m - d);
                    assert(digits_val(post) > u64::MAX);
                }
            } else {
                proof {
                    let m = (u64::MAX - d) as int;
                    let q = m / 10;
                    assert(10 * acc <= 10 * q);
                    assert(10 * q <= m);
                    assert(acc * 10 + d <= u64::MAX);
                }
                acc = acc * 10 + d;
            }
        }
        i += 1;
    }
    proof {
        assert forall|k: int| 0 <= k < digits.len() implies dec_digit(#[trigger] digits[k]) by {
            assert(digits[k] == v@[start + k]);
        }
        lemma_digits_val_nonneg(digits);
        if start == 0 {
            assert(s@[0] != '-' && s@[0] != '+');
        }
    }
    if too_big {
        return None;
    }
    if neg {
        if acc <= 9223372036854775807u64 {
            Some((-(acc as i64)) as i64)
        } else if acc == 9223372036854775808u64 {
            Some(i64::MIN)
        } else {
            None
        }
    } else {
        if acc <= 9223372036854775807u64 {
            Some(acc as i64)
        } else {
            None
        }
    }
}

/// Parses the text as an `i64`, with zero for anything that does not parse
/// or does not fit.
pub fn parse_i64_saturated(s: &str) -> (r: i64)
    ensures
        r == spec_int_literal_value(s@),
{
    match parse_i64(s) {
        Some(v) => v,
        None => 0,
    }
}

} // verus!
