//! Decoding of free-text backend replies into the declared primitive
//! types.
//!
//! Each primitive has a dispatcher that first tries to read the raw reply
//! directly as that primitive, and only when that fails falls back to the
//! heuristic keyed by the semantic meaning, and last to a generic
//! extractor. The heuristic for a meaning is picked by an ordered list of
//! keyword rules, first match wins, exactly as the strategy functions
//! below state.

use vstd::prelude::*;
use vstd::string::StringExecFns;
use crate::strutil::{
    str_eq, to_chars, from_chars, to_lower_ascii, contains_sub, contains_ci, trim, split_ws,
    parse_i64, spec_contains, spec_lower, spec_trim, spec_split_ws, spec_parse_int, string_views,
    dec_digit, digits_val, all_dec_digits,
};

verus! {

// ---------------------------------------------------------------------------
// Reading one token as an integer
// ---------------------------------------------------------------------------

pub open spec fn spec_parse_i32(s: Seq<char>) -> Option<i32> {
    match spec_parse_int(s) {
        Some(v) => if i32::MIN <= v <= i32::MAX {
            Some(v as i32)
        } else {
            None
        },
        None => None,
    }
}

/// Reads the text as an `i32`, exactly as `spec_parse_i32` says.
pub fn parse_i32(s: &str) -> (r: Option<i32>)
    ensures
        r == spec_parse_i32(s@),
{
    match parse_i64(s) {
        Some(v) => {
            if i32::MIN as i64 <= v && v <= i32::MAX as i64 {
                Some(v as i32)
            } else {
                None
            }
        },
        None => None,
    }
}

// ---------------------------------------------------------------------------
// Integer heuristics
// ---------------------------------------------------------------------------

/// The value of the first token that reads as an integer.
pub open spec fn first_int_tok(toks: Seq<Seq<char>>) -> Option<i32>
    decreases toks.len(),
{
    if toks.len() == 0 {
        None
    } else {
        match spec_parse_i32(toks[0]) {
            Some(v) => Some(v),
            None => first_int_tok(toks.drop_first()),
        }
    }
}

/// The generic integer extraction: the first integer token, else zero.
pub open spec fn spec_extract_int_generic(text: Seq<char>) -> i32 {
    match first_int_tok(spec_split_ws(text)) {
        Some(v) => v,
        None => 0,
    }
}

/// First integer token of the text, or zero.
#[verifier::loop_isolation(false)]
pub fn extract_int_generic(text: &str) -> (r: i32)
    ensures
        r == spec_extract_int_generic(text@),
{
    let toks = split_ws(text);
    let mut i: usize = 0;
    proof {
        assert(string_views(toks@).skip(0) =~= string_views(toks@));
    }
    while i < toks.len()
        invariant
            i <= toks@.len(),
            first_int_tok(string_views(toks@)) == first_int_tok(
                string_views(toks@).skip(i as int),
            ),
        decreases toks@.len() - i,
    {
        proof {
            assert(string_views(toks@).skip(i as int)[0] == toks@[i as int]@);
            assert(string_views(toks@).skip(i as int).drop_first() =~= string_views(toks@).skip(
                i + 1,
            ));
        }
        match parse_i32(toks[i].as_str()) {
            Some(v) => {
                return v;
            },
            None => (),
        }
        i += 1;
    }
    0
}

/// The digit characters of the text, in order.
pub open spec fn keep_digits(t: Seq<char>) -> Seq<char>
    decreases t.len(),
{
    if t.len() == 0 {
        Seq::empty()
    } else {
        let r = keep_digits(t.drop_last());
        if dec_digit(t.last()) {
            r.push(t.last())
        } else {
            r
        }
    }
}

pub proof fn lemma_keep_digits_all_digits(t: Seq<char>)
    ensures
        all_dec_digits(keep_digits(t)),
    decreases t.len(),
{
    if t.len() > 0 {
        lemma_keep_digits_all_digits(t.drop_last());
    }
}

/// Digit-scan extraction: the first token whose digit characters read as a
/// number inside `[low, high]`.
pub open spec fn digit_scan_toks(toks: Seq<Seq<char>>, low: int, high: int) -> Option<i32>
    decreases toks.len(),
{
    if toks.len() == 0 {
        None
    } else {
        let d = keep_digits(toks[0]);
        if d.len() > 0 && low <= digits_val(d) <= high {
            Some(digits_val(d) as i32)
        } else {
            digit_scan_toks(toks.drop_first(), low, high)
        }
    }
}

pub open spec fn spec_extract_int_digit_scan(text: Seq<char>, low: int, high: int) -> i32 {
    match digit_scan_toks(spec_split_ws(text), low, high) {
        Some(v) => v,
        None => 0,
    }
}

/// Collects the digit characters of one token.
fn digits_of(t: &str) -> (r: Vec<char>)
    ensures
        r@ == keep_digits(t@),
{
    let v = to_chars(t);
    let mut out: Vec<char> = Vec::new();
    let mut i: usize = 0;
    while i < v.len()
        invariant
            i <= v@.len(),
            v@ == t@,
            out@ == keep_digits(t@.subrange(0, i as int)),
        decreases v@.len() - i,
    {
        proof {
            assert(t@.subrange(0, i + 1 as int).drop_last() =~= t@.subrange(0, i as int));
            assert(t@.subrange(0, i + 1 as int).last() == t@[i as int]);
        }
        let c = v[i];
        if '0' <= c && c <= '9' {
            out.push(c);
        }
        i += 1;
    }
    proof {
        assert(t@.subrange(0, t@.len() as int) =~= t@);
    }
    out
}

/// Scans the tokens for one whose digits fall in `[low, high]`; zero when
/// none does.
#[verifier::loop_isolation(false)]
pub fn extract_int_digit_scan(text: &str, low: i32, high: i32) -> (r: i32)
    requires
        0 <= low <= high,
    ensures
        r == spec_extract_int_digit_scan(text@, low as int, high as int),
{
    let toks = split_ws(text);
    let mut i: usize = 0;
    proof {
        assert(string_views(toks@).skip(0) =~= string_views(toks@));
    }
    while i < toks.len()
        invariant
            i <= toks@.len(),
            digit_scan_toks(string_views(toks@), low as int, high as int) == digit_scan_toks(
                string_views(toks@).skip(i as int),
                low as int,
                high as int,
            ),
        decreases toks@.len() - i,
    {
        proof {
            assert(string_views(toks@).skip(i as int)[0] == toks@[i as int]@);
            assert(string_views(toks@).skip(i as int).drop_first() =~= string_views(toks@).skip(
                i + 1,
            ));
        }
        let d = digits_of(toks[i].as_str());
        let ghost dd = keep_digits(toks@[i as int]@);
        if d.len() > 0 {
            proof {
                lemma_keep_digits_all_digits(toks@[i as int]@);
                assert(dec_digit(dd[0]));
            }
            let ds = from_chars(&d);
            match parse_i64(ds.as_str()) {
                Some(v) => {
                    if low as i64 <= v && v <= high as i64 {
                        return v as i32;
                    }
                },
                None => {
                    proof {
                        // The digits overflow an `i64`, so their value is
                        // far above any accepted range.
                        crate::strutil::lemma_digits_val_nonneg(dd);
                        assert(digits_val(dd) > i64::MAX);
                    }
                },
            }
        }
        i += 1;
    }
    0
}

/// The digit and decimal-point characters of the text, in order.
pub open spec fn keep_digits_dots(t: Seq<char>) -> Seq<char>
    decreases t.len(),
{
    if t.len() == 0 {
        Seq::empty()
    } else {
        let r = keep_digits_dots(t.drop_last());
        if dec_digit(t.last()) || t.last() == '.' {
            r.push(t.last())
        } else {
            r
        }
    }
}

/// Position of the first decimal point at or after `i`, or the length.
pub open spec fn first_dot(s: Seq<char>, i: int) -> int
    decreases s.len() - i,
{
    if 0 <= i < s.len() && s[i] != '.' {
        first_dot(s, i + 1)
    } else if 0 <= i < s.len() {
        i
    } else {
        s.len() as int
    }
}

pub open spec fn count_dots(s: Seq<char>) -> int
    decreases s.len(),
{
    if s.len() == 0 {
        0
    } else {
        count_dots(s.drop_last()) + if s.last() == '.' {
            1int
        } else {
            0int
        }
    }
}

pub open spec fn has_digit(s: Seq<char>) -> bool {
    exists|i: int| 0 <= i < s.len() && dec_digit(#[trigger] s[i])
}

/// A decimal-number text: digits with at most one point and at least one
/// digit.
pub open spec fn is_decimal_text(s: Seq<char>) -> bool {
    s.len() > 0 && count_dots(s) <= 1 && has_digit(s) && forall|i: int|
        0 <= i < s.len() ==> dec_digit(#[trigger] s[i]) || s[i] == '.'
}

pub open spec fn clamp_i32(v: int) -> i32 {
    if v > i32::MAX {
        i32::MAX
    } else if v < 0 {
        0
    } else {
        v as i32
    }
}

/// The whole part of a decimal-number text: its digits before the point.
pub open spec fn decimal_whole_part(s: Seq<char>) -> int {
    digits_val(s.subrange(0, first_dot(s, 0)))
}

/// Population-style extraction: the first token that reads as a decimal
/// number once every other character is stripped; the value is truncated
/// to its whole part.
pub open spec fn population_toks(toks: Seq<Seq<char>>) -> Option<i32>
    decreases toks.len(),
{
    if toks.len() == 0 {
        None
    } else {
        let u = keep_digits_dots(toks[0]);
        if is_decimal_text(u) {
            Some(clamp_i32(decimal_whole_part(u)))
        } else {
            population_toks(toks.drop_first())
        }
    }
}

pub open spec fn spec_extract_int_population(text: Seq<char>) -> i32 {
    match population_toks(spec_split_ws(text)) {
        Some(v) => v,
        None => 0,
    }
}

/// Strips one token to its digit and point characters.
fn digits_dots_of(t: &str) -> (r: Vec<char>)
    ensures
        r@ == keep_digits_dots(t@),
{
    let v = to_chars(t);
    let mut out: Vec<char> = Vec::new();
    let mut i: usize = 0;
    while i < v.len()
        invariant
            i <= v@.len(),
            v@ == t@,
            out@ == keep_digits_dots(t@.subrange(0, i as int)),
        decreases v@.len() - i,
    {
        proof {
            assert(t@.subrange(0, i + 1 as int).drop_last() =~= t@.subrange(0, i as int));
            assert(t@.subrange(0, i + 1 as int).last() == t@[i as int]);
        }
        let c = v[i];
        if ('0' <= c && c <= '9') || c == '.' {
            out.push(c);
        }
        i += 1;
    }
    proof {
        assert(t@.subrange(0, t@.len() as int) =~= t@);
    }
    out
}

/// Reads a stripped token as a truncated whole number, when it is a
/// decimal-number text.
#[verifier::loop_isolation(false)]
fn decimal_token_value(u: &Vec<char>) -> (r: Option<i32>)
    requires
        forall|i: int| 0 <= i < u@.len() ==> dec_digit(#[trigger] u@[i]) || u@[i] == '.',
    ensures
        is_decimal_text(u@) ==> r == Some(clamp_i32(decimal_whole_part(u@))),
        !is_decimal_text(u@) ==> r is None,
{
    let n = u.len();
    if n == 0 {
        return None;
    }
    // Count the points and look for a digit.
    let mut dots: usize = 0;
    let mut digit_seen = false;
    let mut i: usize = 0;
    while i < n
        invariant
            i <= n,
            dots == count_dots(u@.subrange(0, i as int)),
            dots <= i,
            digit_seen == has_digit(u@.subrange(0, i as int)),
        decreases n - i,
    {
        proof {
            assert(u@.subrange(0, i + 1 as int).drop_last() =~= u@.subrange(0, i as int));
            assert(u@.subrange(0, i + 1 as int).last() == u@[i as int]);
            if has_digit(u@.subrange(0, i as int)) {
                let witness = choose|k: int|
                    0 <= k < i && dec_digit(#[trigger] u@.subrange(0, i as int)[k]);
                assert(dec_digit(u@.subrange(0, i + 1 as int)[witness]));
            }
        }
        let c = u[i];
        if c == '.' {
            dots += 1;
        } else if '0' <= c && c <= '9' {
            if !digit_seen {
                proof {
                    assert(dec_digit(u@.subrange(0, i + 1 as int)[i as int]));
                }
            }
            digit_seen = true;
        }
        i += 1;
    }
    proof {
        assert(u@.subrange(0, n as int) =~= u@);
    }
    if dots > 1 || !digit_seen {
        return None;
    }
    // The whole part is what stands before the first point.
    let mut fd: usize = 0;
    while fd < n && u[fd] != '.'
        invariant
            fd <= n,
            first_dot(u@, 0) == first_dot(u@, fd as int),
        decreases n - fd,
    {
        fd += 1;
    }
    proof {
        assert(first_dot(u@, 0) == fd);
    }
    let ghost wp = u@.subrange(0, first_dot(u@, 0));
    let mut wchars: Vec<char> = Vec::new();
    let mut k: usize = 0;
    while k < fd
        invariant
            k <= fd <= n,
            n == u@.len(),
            wchars@ == u@.subrange(0, k as int),
        decreases fd - k,
    {
        wchars.push(u[k]);
        proof {
            assert(wchars@ =~= u@.subrange(0, k + 1 as int));
        }
        k += 1;
    }
    proof {
        assert(wchars@ =~= wp);
    }
    if wchars.len() == 0 {
        proof {
            assert(digits_val(wp) == 0);
        }
        return Some(0);
    }
    let ws = from_chars(&wchars);
    proof {
        lemma_whole_part_digits(u@);
        assert(dec_digit(wp[0]));
        crate::strutil::lemma_digits_val_nonneg(wp);
    }
    match parse_i64(ws.as_str()) {
        Some(v) => {
            if v > i32::MAX as i64 {
                Some(i32::MAX)
            } else {
                Some(v as i32)
            }
        },
        None => Some(i32::MAX),
    }
}

/// In a digits-and-points text, everything before the first point is a
/// digit.
proof fn lemma_whole_part_digits(u: Seq<char>)
    requires
        forall|i: int| 0 <= i < u.len() ==> dec_digit(#[trigger] u[i]) || u[i] == '.',
    ensures
        all_dec_digits(u.subrange(0, first_dot(u, 0))),
        0 <= first_dot(u, 0) <= u.len(),
{
    lemma_first_dot_range(u, 0);
    let e = first_dot(u, 0);
    assert forall|k: int| 0 <= k < e implies dec_digit(#[trigger] u.subrange(0, e)[k]) by {
        lemma_first_dot_no_dot_before(u, 0, k);
        assert(u.subrange(0, e)[k] == u[k]);
    }
}

proof fn lemma_first_dot_range(u: Seq<char>, j: int)
    requires
        0 <= j <= u.len(),
    ensures
        j <= first_dot(u, j) <= u.len(),
    decreases u.len() - j,
{
    if j < u.len() && u[j] != '.' {
        lemma_first_dot_range(u, j + 1);
    }
}

proof fn lemma_first_dot_no_dot_before(u: Seq<char>, j: int, k: int)
    requires
        0 <= j <= k < first_dot(u, j),
        first_dot(u, j) <= u.len(),
    ensures
        u[k] != '.',
    decreases k - j,
{
    lemma_first_dot_range(u, j);
    if j < k {
        lemma_first_dot_no_dot_before(u, j + 1, k);
    }
}

/// The characters kept by the stripping are digits and points alone.
proof fn lemma_keep_digits_dots_chars(t: Seq<char>)
    ensures
        forall|i: int|
            0 <= i < keep_digits_dots(t).len() ==> dec_digit(#[trigger] keep_digits_dots(t)[i])
                || keep_digits_dots(t)[i] == '.',
    decreases t.len(),
{
    if t.len() > 0 {
        lemma_keep_digits_dots_chars(t.drop_last());
        let r = keep_digits_dots(t.drop_last());
        if dec_digit(t.last()) || t.last() == '.' {
            assert forall|i: int| 0 <= i < keep_digits_dots(t).len() implies dec_digit(
                #[trigger] keep_digits_dots(t)[i],
            ) || keep_digits_dots(t)[i] == '.' by {
                if i < r.len() {
                    assert(keep_digits_dots(t)[i] == r[i]);
                } else {
                    assert(keep_digits_dots(t)[i] == t.last());
                }
            }
        }
    }
}

/// Population-style extraction over the whole text.
#[verifier::loop_isolation(false)]
pub fn extract_int_population(text: &str) -> (r: i32)
    ensures
        r == spec_extract_int_population(text@),
{
    let toks = split_ws(text);
    let mut i: usize = 0;
    proof {
        assert(string_views(toks@).skip(0) =~= string_views(toks@));
    }
    while i < toks.len()
        invariant
            i <= toks@.len(),
            population_toks(string_views(toks@)) == population_toks(
                string_views(toks@).skip(i as int),
            ),
        decreases toks@.len() - i,
    {
        proof {
            assert(string_views(toks@).skip(i as int)[0] == toks@[i as int]@);
            assert(string_views(toks@).skip(i as int).drop_first() =~= string_views(toks@).skip(
                i + 1,
            ));
        }
        let u = digits_dots_of(toks[i].as_str());
        proof {
            lemma_keep_digits_dots_chars(toks@[i as int]@);
        }
        match decimal_token_value(&u) {
            Some(v) => {
                return v;
            },
            None => (),
        }
        i += 1;
    }
    0
}

// ---------------------------------------------------------------------------
// Integer strategy selection and dispatch
// ---------------------------------------------------------------------------

/// How an integer is pulled out of a reply, picked from the meaning text.
#[derive(Debug, Clone, Copy, PartialEq, Eq, Structural)]
pub enum IntStrategy {
    /// First whitespace token that reads as an integer.
    FirstToken,
    /// Scan tokens for a digit run in the age range.
    AgeScan,
    /// Scan tokens for a digit run in the year range.
    YearScan,
    /// First token that reads as a decimal number once stripped, truncated.
    Population,
    /// The generic fallback.
    Generic,
}

/// The ordered keyword rules for integer meanings, first match wins.
pub open spec fn spec_int_strategy(m: Seq<char>) -> IntStrategy {
    if spec_contains(m, "books"@) || spec_contains(m, "count"@) || spec_contains(m, "number"@) {
        IntStrategy::FirstToken
    } else if spec_contains(m, "age"@) {
        IntStrategy::AgeScan
    } else if spec_contains(m, "year"@) || spec_contains(m, "founded"@) || spec_contains(
        m,
        "established"@,
    ) {
        IntStrategy::YearScan
    } else if spec_contains(m, "population"@) {
        IntStrategy::Population
    } else {
        IntStrategy::Generic
    }
}

pub fn int_strategy_for(meaning: &str) -> (r: IntStrategy)
    ensures
        r == spec_int_strategy(meaning@),
{
    if contains_sub(meaning, "books") || contains_sub(meaning, "count") || contains_sub(
        meaning,
        "number",
    ) {
        IntStrategy::FirstToken
    } else if contains_sub(meaning, "age") {
        IntStrategy::AgeScan
    } else if contains_sub(meaning, "year") || contains_sub(meaning, "founded") || contains_sub(
        meaning,
        "established",
    ) {
        IntStrategy::YearScan
    } else if contains_sub(meaning, "population") {
        IntStrategy::Population
    } else {
        IntStrategy::Generic
    }
}

/// What a strategy yields on a reply text.
pub open spec fn spec_apply_int_strategy(st: IntStrategy, text: Seq<char>) -> i32 {
    match st {
        IntStrategy::FirstToken => spec_extract_int_generic(text),
        IntStrategy::AgeScan => spec_extract_int_digit_scan(text, 1, 149),
        IntStrategy::YearScan => spec_extract_int_digit_scan(text, 1000, 2100),
        IntStrategy::Population => spec_extract_int_population(text),
        IntStrategy::Generic => spec_extract_int_generic(text),
    }
}

pub fn apply_int_strategy(st: IntStrategy, text: &str) -> (r: i32)
    ensures
        r == spec_apply_int_strategy(st, text@),
{
    match st {
        IntStrategy::FirstToken => extract_int_generic(text),
        IntStrategy::AgeScan => extract_int_digit_scan(text, 1, 149),
        IntStrategy::YearScan => extract_int_digit_scan(text, 1000, 2100),
        IntStrategy::Population => extract_int_population(text),
        IntStrategy::Generic => extract_int_generic(text),
    }
}

/// Meaning-keyed integer extraction.
pub open spec fn spec_extract_integer(text: Seq<char>, meaning: Seq<char>) -> i32 {
    spec_apply_int_strategy(spec_int_strategy(meaning), text)
}

pub fn extract_integer(text: &str, meaning: &str) -> (r: i32)
    ensures
        r == spec_extract_integer(text@, meaning@),
{
    apply_int_strategy(int_strategy_for(meaning), text)
}

/// The integer decode dispatcher: a reply that directly reads as an
/// integer short-circuits every heuristic; otherwise the meaning's
/// strategy runs, and without a meaning the generic extractor.
pub open spec fn spec_decode_integer(text: Seq<char>, meaning: Option<Seq<char>>) -> i32 {
    match spec_parse_i32(spec_trim(text)) {
        Some(v) => v,
        None => match meaning {
            Some(m) => spec_extract_integer(text, m),
            None => spec_extract_int_generic(text),
        },
    }
}

pub fn decode_integer(text: &str, meaning: Option<&str>) -> (r: i32)
    ensures
        r == spec_decode_integer(
            text@,
            match meaning {
                Some(m) => Some(m@),
                None => None,
            },
        ),
{
    let trimmed = trim(text);
    match parse_i32(trimmed.as_str()) {
        Some(v) => v,
        None => match meaning {
            Some(m) => extract_integer(text, m),
            None => extract_int_generic(text),
        },
    }
}

// ---------------------------------------------------------------------------
// Boolean heuristics
// ---------------------------------------------------------------------------

/// Case-insensitive containment.
pub open spec fn ci_has(s: Seq<char>, pat: Seq<char>) -> bool {
    spec_contains(spec_lower(s), spec_lower(pat))
}

#[derive(Debug, Clone, Copy, PartialEq, Eq, Structural)]
pub enum BoolStrategy {
    Availability,
    Recommendation,
    Sentiment,
    Generic,
}

/// The ordered keyword rules for boolean meanings, first match wins.
pub open spec fn spec_bool_strategy(m: Seq<char>) -> BoolStrategy {
    if spec_contains(m, "available"@) || spec_contains(m, "availability"@) {
        BoolStrategy::Availability
    } else if spec_contains(m, "recommendation"@) || spec_contains(m, "recommend"@) {
        BoolStrategy::Recommendation
    } else if spec_contains(m, "sentiment"@) {
        BoolStrategy::Sentiment
    } else {
        BoolStrategy::Generic
    }
}

pub fn bool_strategy_for(meaning: &str) -> (r: BoolStrategy)
    ensures
        r == spec_bool_strategy(meaning@),
{
    if contains_sub(meaning, "available") || contains_sub(meaning, "availability") {
        BoolStrategy::Availability
    } else if contains_sub(meaning, "recommendation") || contains_sub(meaning, "recommend") {
        BoolStrategy::Recommendation
    } else if contains_sub(meaning, "sentiment") {
        BoolStrategy::Sentiment
    } else {
        BoolStrategy::Generic
    }
}

pub open spec fn spec_apply_bool_strategy(st: BoolStrategy, text: Seq<char>) -> bool {
    match st {
        BoolStrategy::Availability => ci_has(text, "yes"@) || ci_has(text, "available"@) || ci_has(
            text,
            "in stock"@,
        ),
        BoolStrategy::Recommendation => ci_has(text, "yes"@) || ci_has(text, "recommend"@),
        BoolStrategy::Sentiment => ci_has(text, "positive"@) || ci_has(text, "good"@) || ci_has(
            text,
            "great"@,
        ),
        BoolStrategy::Generic => ci_has(text, "true"@) || ci_has(text, "yes"@) || ci_has(
            text,
            "positive"@,
        ),
    }
}

pub fn apply_bool_strategy(st: BoolStrategy, text: &str) -> (r: bool)
    ensures
        r == spec_apply_bool_strategy(st, text@),
{
    match st {
        BoolStrategy::Availability => contains_ci(text, "yes") || contains_ci(text, "available")
            || contains_ci(text, "in stock"),
        BoolStrategy::Recommendation => contains_ci(text, "yes") || contains_ci(text, "recommend"),
        BoolStrategy::Sentiment => contains_ci(text, "positive") || contains_ci(text, "good")
            || contains_ci(text, "great"),
        BoolStrategy::Generic => contains_ci(text, "true") || contains_ci(text, "yes")
            || contains_ci(text, "positive"),
    }
}

pub open spec fn spec_extract_boolean(text: Seq<char>, meaning: Seq<char>) -> bool {
    spec_apply_bool_strategy(spec_bool_strategy(meaning), text)
}

pub fn extract_boolean(text: &str, meaning: &str) -> (r: bool)
    ensures
        r == spec_extract_boolean(text@, meaning@),
{
    apply_bool_strategy(bool_strategy_for(meaning), text)
}

/// The boolean decode dispatcher: a reply that is exactly `true` or
/// `false` (ignoring case and surrounding space) short-circuits; after
/// that the meaning's word list, and last the generic word list.
pub open spec fn spec_decode_boolean(text: Seq<char>, meaning: Option<Seq<char>>) -> bool {
    if spec_lower(spec_trim(text)) == "true"@ {
        true
    } else if spec_lower(spec_trim(text)) == "false"@ {
        false
    } else {
        match meaning {
            Some(m) => spec_extract_boolean(text, m),
            None => spec_apply_bool_strategy(BoolStrategy::Generic, text),
        }
    }
}

pub fn decode_boolean(text: &str, meaning: Option<&str>) -> (r: bool)
    ensures
        r == spec_decode_boolean(
            text@,
            match meaning {
                Some(m) => Some(m@),
                None => None,
            },
        ),
{
    let trimmed = trim(text);
    let folded = to_lower_ascii(trimmed.as_str());
    if str_eq(folded.as_str(), "true") {
        true
    } else if str_eq(folded.as_str(), "false") {
        false
    } else {
        match meaning {
            Some(m) => extract_boolean(text, m),
            None => apply_bool_strategy(BoolStrategy::Generic, text),
        }
    }
}

// ---------------------------------------------------------------------------
// Text heuristics
// ---------------------------------------------------------------------------

pub open spec fn is_alpha(c: char) -> bool {
    ('a' <= c && c <= 'z') || ('A' <= c && c <= 'Z')
}

/// A token naming a field of knowledge: alphabetic and longer than three
/// characters.
pub open spec fn is_field_token(t: Seq<char>) -> bool {
    t.len() > 3 && forall|i: int| 0 <= i < t.len() ==> is_alpha(#[trigger] t[i])
}

pub open spec fn first_field_tok(toks: Seq<Seq<char>>) -> Option<Seq<char>>
    decreases toks.len(),
{
    if toks.len() == 0 {
        None
    } else if is_field_token(toks[0]) {
        Some(toks[0])
    } else {
        first_field_tok(toks.drop_first())
    }
}

pub open spec fn spec_extract_text_field(text: Seq<char>) -> Seq<char> {
    match first_field_tok(spec_split_ws(text)) {
        Some(t) => t,
        None => "unknown"@,
    }
}

/// The first alphabetic token longer than three characters, else a fixed
/// marker.
#[verifier::loop_isolation(false)]
pub fn extract_text_field(text: &str) -> (r: String)
    ensures
        r@ == spec_extract_text_field(text@),
{
    let toks = split_ws(text);
    let mut i: usize = 0;
    proof {
        assert(string_views(toks@).skip(0) =~= string_views(toks@));
    }
    while i < toks.len()
        invariant
            i <= toks@.len(),
            first_field_tok(string_views(toks@)) == first_field_tok(
                string_views(toks@).skip(i as int),
            ),
        decreases toks@.len() - i,
    {
        proof {
            assert(string_views(toks@).skip(i as int)[0] == toks@[i as int]@);
            assert(string_views(toks@).skip(i as int).drop_first() =~= string_views(toks@).skip(
                i + 1,
            ));
        }
        let t = &toks[i];
        let v = to_chars(t.as_str());
        let mut all_alpha = true;
        let mut j: usize = 0;
        while j < v.len()
            invariant
                j <= v@.len(),
                v@ == toks@[i as int]@,
                all_alpha == forall|k: int| 0 <= k < j ==> is_alpha(#[trigger] v@[k]),
                !all_alpha ==> j == v@.len(),
            decreases v@.len() - j,
        {
            let c = v[j];
            if !(('a' <= c && c <= 'z') || ('A' <= c && c <= 'Z')) {
                all_alpha = false;
                proof {
                    assert(!is_alpha(v@[j as int]));
                }
                j = v.len();
            } else {
                proof {
                    assert(forall|k: int| 0 <= k < j + 1 ==> is_alpha(#[trigger] v@[k]));
                }
                j += 1;
            }
        }
        if all_alpha && v.len() > 3 {
            proof {
                assert(is_field_token(toks@[i as int]@));
            }
            return t.clone();
        }
        proof {
            assert(!is_field_token(toks@[i as int]@));
        }
        i += 1;
    }
    let u: String = "unknown".to_owned();
    u
}

/// Cuts the reply at its first period; a reply with none is truncated at
/// `limit` characters with an ellipsis.
pub open spec fn spec_summarize(text: Seq<char>, limit: int) -> Seq<char> {
    let tr = spec_trim(text);
    let p = first_dot(tr, 0);
    if p < tr.len() {
        tr.subrange(0, p + 1)
    } else if tr.len() > limit {
        tr.subrange(0, limit) + "..."@
    } else {
        tr
    }
}

#[verifier::loop_isolation(false)]
pub fn summarize(text: &str, limit: usize) -> (r: String)
    ensures
        r@ == spec_summarize(text@, limit as int),
{
    let tr = trim(text);
    let v = to_chars(tr.as_str());
    let n = v.len();
    let mut fd: usize = 0;
    while fd < n && v[fd] != '.'
        invariant
            fd <= n,
            first_dot(v@, 0) == first_dot(v@, fd as int),
        decreases n - fd,
    {
        fd += 1;
    }
    proof {
        assert(first_dot(v@, 0) == fd);
    }
    if fd < n {
        let mut out: Vec<char> = Vec::new();
        let mut k: usize = 0;
        while k < fd + 1
            invariant
                k <= fd + 1 <= n,
                out@ == v@.subrange(0, k as int),
            decreases fd + 1 - k,
        {
            out.push(v[k]);
            proof {
                assert(out@ =~= v@.subrange(0, k + 1 as int));
            }
            k += 1;
        }
        from_chars(&out)
    } else if n > limit {
        let mut out: Vec<char> = Vec::new();
        let mut k: usize = 0;
        while k < limit
            invariant
                k <= limit <= n,
                out@ == v@.subrange(0, k as int),
            decreases limit - k,
        {
            out.push(v[k]);
            proof {
                assert(out@ =~= v@.subrange(0, k + 1 as int));
            }
            k += 1;
        }
        let mut r = from_chars(&out);
        r.append("...");
        r
    } else {
        tr
    }
}

#[derive(Debug, Clone, Copy, PartialEq, Eq, Structural)]
pub enum TextStrategy {
    Field,
    FullText,
    Summary,
    Historical,
    Generic,
}

/// The ordered keyword rules for text meanings, first match wins.
pub open spec fn spec_text_strategy(m: Seq<char>) -> TextStrategy {
    if spec_contains(m, "field"@) || spec_contains(m, "area"@) || spec_contains(m, "expertise"@) {
        TextStrategy::Field
    } else if spec_contains(m, "description"@) || spec_contains(m, "information"@)
        || spec_contains(m, "geographic"@) {
        TextStrategy::FullText
    } else if spec_contains(m, "summary"@) {
        TextStrategy::Summary
    } else if spec_contains(m, "historical"@) {
        TextStrategy::Historical
    } else {
        TextStrategy::Generic
    }
}

pub fn text_strategy_for(meaning: &str) -> (r: TextStrategy)
    ensures
        r == spec_text_strategy(meaning@),
{
    if contains_sub(meaning, "field") || contains_sub(meaning, "area") || contains_sub(
        meaning,
        "expertise",
    ) {
        TextStrategy::Field
    } else if contains_sub(meaning, "description") || contains_sub(meaning, "information")
        || contains_sub(meaning, "geographic") {
        TextStrategy::FullText
    } else if contains_sub(meaning, "summary") {
        TextStrategy::Summary
    } else if contains_sub(meaning, "historical") {
        TextStrategy::Historical
    } else {
        TextStrategy::Generic
    }
}

pub open spec fn spec_apply_text_strategy(st: TextStrategy, text: Seq<char>) -> Seq<char> {
    match st {
        TextStrategy::Field => spec_extract_text_field(text),
        TextStrategy::FullText => spec_trim(text),
        TextStrategy::Summary => spec_summarize(text, 100),
        TextStrategy::Historical => spec_summarize(text, 200),
        TextStrategy::Generic => spec_trim(text),
    }
}

pub fn apply_text_strategy(st: TextStrategy, text: &str) -> (r: String)
    ensures
        r@ == spec_apply_text_strategy(st, text@),
{
    match st {
        TextStrategy::Field => extract_text_field(text),
        TextStrategy::FullText => trim(text),
        TextStrategy::Summary => summarize(text, 100),
        TextStrategy::Historical => summarize(text, 200),
        TextStrategy::Generic => trim(text),
    }
}

pub open spec fn spec_extract_text(text: Seq<char>, meaning: Seq<char>) -> Seq<char> {
    spec_apply_text_strategy(spec_text_strategy(meaning), text)
}

pub fn extract_text(text: &str, meaning: &str) -> (r: String)
    ensures
        r@ == spec_extract_text(text@, meaning@),
{
    apply_text_strategy(text_strategy_for(meaning), text)
}

/// The text decode dispatcher: with a meaning its strategy runs, without
/// one the reply is handed back trimmed.
pub open spec fn spec_decode_text(text: Seq<char>, meaning: Option<Seq<char>>) -> Seq<char> {
    match meaning {
        Some(m) => spec_extract_text(text, m),
        None => spec_trim(text),
    }
}

pub fn decode_text(text: &str, meaning: Option<&str>) -> (r: String)
    ensures
        r@ == spec_decode_text(
            text@,
            match meaning {
                Some(m) => Some(m@),
                None => None,
            },
        ),
{
    match meaning {
        Some(m) => extract_text(text, m),
        None => trim(text),
    }
}

// ---------------------------------------------------------------------------
// Floating-point token selection
// ---------------------------------------------------------------------------
//
// The library picks the numeric text; turning it into a float is the
// caller's concern, outside the verified surface.

#[derive(Debug, Clone, Copy, PartialEq, Eq, Structural)]
pub enum FloatStrategy {
    StripScan,
    Percentage,
    Generic,
}

/// The ordered keyword rules for floating-point meanings, first match
/// wins.
pub open spec fn spec_float_strategy(m: Seq<char>) -> FloatStrategy {
    if spec_contains(m, "rating"@) || spec_contains(m, "scale"@) || spec_contains(m, "quality"@)
        || spec_contains(m, "price"@) || spec_contains(m, "cost"@) {
        FloatStrategy::StripScan
    } else if spec_contains(m, "percentage"@) || spec_contains(m, "percent"@) {
        FloatStrategy::Percentage
    } else {
        FloatStrategy::Generic
    }
}

pub fn float_strategy_for(meaning: &str) -> (r: FloatStrategy)
    ensures
        r == spec_float_strategy(meaning@),
{
    if contains_sub(meaning, "rating") || contains_sub(meaning, "scale") || contains_sub(
        meaning,
        "quality",
    ) || contains_sub(meaning, "price") || contains_sub(meaning, "cost") {
        FloatStrategy::StripScan
    } else if contains_sub(meaning, "percentage") || contains_sub(meaning, "percent") {
        FloatStrategy::Percentage
    } else {
        FloatStrategy::Generic
    }
}

/// The first token that reads as a decimal number once stripped to digits
/// and points.
pub open spec fn strip_scan_toks(toks: Seq<Seq<char>>) -> Option<Seq<char>>
    decreases toks.len(),
{
    if toks.len() == 0 {
        None
    } else {
        let u = keep_digits_dots(toks[0]);
        if is_decimal_text(u) {
            Some(u)
        } else {
            strip_scan_toks(toks.drop_first())
        }
    }
}

/// The first token that is a decimal number as it stands.
pub open spec fn plain_decimal_toks(toks: Seq<Seq<char>>) -> Option<Seq<char>>
    decreases toks.len(),
{
    if toks.len() == 0 {
        None
    } else if is_decimal_text(toks[0]) {
        Some(toks[0])
    } else {
        plain_decimal_toks(toks.drop_first())
    }
}

/// The trimmed reply with one trailing percent sign removed.
pub open spec fn spec_strip_percent(text: Seq<char>) -> Seq<char> {
    let tr = spec_trim(text);
    if tr.len() > 0 && tr.last() == '%' {
        tr.drop_last()
    } else {
        tr
    }
}

/// The numeric text a floating-point reply yields under the meaning's
/// strategy: the chosen token, ready to be read as a number.
pub open spec fn spec_float_text(text: Seq<char>, meaning: Seq<char>) -> Option<Seq<char>> {
    match spec_float_strategy(meaning) {
        FloatStrategy::StripScan => strip_scan_toks(spec_split_ws(text)),
        FloatStrategy::Percentage => {
            let u = spec_strip_percent(text);
            if is_decimal_text(u) {
                Some(u)
            } else {
                plain_decimal_toks(spec_split_ws(text))
            }
        },
        FloatStrategy::Generic => plain_decimal_toks(spec_split_ws(text)),
    }
}

/// Checks one vector of characters for decimal-number shape.
fn is_decimal_vec(u: &Vec<char>) -> (r: bool)
    ensures
        r == is_decimal_text(u@),
{
    let n = u.len();
    if n == 0 {
        return false;
    }
    let mut dots: usize = 0;
    let mut digit_seen = false;
    let mut clean = true;
    let mut i: usize = 0;
    while i < n
        invariant
            i <= n,
            n == u@.len(),
            dots == count_dots(u@.subrange(0, i as int)),
            dots <= i,
            digit_seen == has_digit(u@.subrange(0, i as int)),
            clean == forall|k: int|
                0 <= k < i ==> dec_digit(#[trigger] u@[k]) || u@[k] == '.',
        decreases n - i,
    {
        proof {
            assert(u@.subrange(0, i + 1 as int).drop_last() =~= u@.subrange(0, i as int));
            assert(u@.subrange(0, i + 1 as int).last() == u@[i as int]);
            if has_digit(u@.subrange(0, i as int)) {
                let witness = choose|k: int|
                    0 <= k < i && dec_digit(#[trigger] u@.subrange(0, i as int)[k]);
                assert(dec_digit(u@.subrange(0, i + 1 as int)[witness]));
            }
        }
        let c = u[i];
        if c == '.' {
            dots += 1;
        } else if '0' <= c && c <= '9' {
            if !digit_seen {
                proof {
                    assert(dec_digit(u@.subrange(0, i + 1 as int)[i as int]));
                }
            }
            digit_seen = true;
        } else {
            clean = false;
            proof {
                assert(!(dec_digit(u@[i as int]) || u@[i as int] == '.'));
            }
        }
        i += 1;
    }
    proof {
        assert(u@.subrange(0, n as int) =~= u@);
    }
    clean && dots <= 1 && digit_seen
}

/// Picks the numeric text out of a floating-point reply; the caller turns
/// it into a number.
#[verifier::loop_isolation(false)]
pub fn extract_float_text(text: &str, meaning: &str) -> (r: Option<String>)
    ensures
        match r {
            Some(s) => spec_float_text(text@, meaning@) == Some(s@),
            None => spec_float_text(text@, meaning@) is None,
        },
{
    let st = float_strategy_for(meaning);
    match st {
        FloatStrategy::StripScan => {
            let toks = split_ws(text);
            let mut i: usize = 0;
            proof {
                assert(string_views(toks@).skip(0) =~= string_views(toks@));
            }
            while i < toks.len()
                invariant
                    i <= toks@.len(),
                    strip_scan_toks(string_views(toks@)) == strip_scan_toks(
                        string_views(toks@).skip(i as int),
                    ),
                decreases toks@.len() - i,
            {
                proof {
                    assert(string_views(toks@).skip(i as int)[0] == toks@[i as int]@);
                    assert(string_views(toks@).skip(i as int).drop_first() =~= string_views(
                        toks@,
                    ).skip(i + 1));
                }
                let u = digits_dots_of(toks[i].as_str());
                if is_decimal_vec(&u) {
                    return Some(from_chars(&u));
                }
                i += 1;
            }
            None
        },
        FloatStrategy::Percentage => {
            let tr = trim(text);
            let v = to_chars(tr.as_str());
            let mut u = v;
            if u.len() > 0 {
                let lastc = u[u.len() - 1];
                if lastc == '%' {
                    u.pop();
                    proof {
                        assert(u@ =~= spec_strip_percent(text@));
                    }
                }
            }
            proof {
                assert(u@ == spec_strip_percent(text@));
            }
            if is_decimal_vec(&u) {
                Some(from_chars(&u))
            } else {
                first_plain_decimal(text)
            }
        },
        FloatStrategy::Generic => first_plain_decimal(text),
    }
}

/// The first token of the text that is a decimal number as it stands.
#[verifier::loop_isolation(false)]
fn first_plain_decimal(text: &str) -> (r: Option<String>)
    ensures
        match r {
            Some(s) => plain_decimal_toks(spec_split_ws(text@)) == Some(s@),
            None => plain_decimal_toks(spec_split_ws(text@)) is None,
        },
{
    let toks = split_ws(text);
    let mut i: usize = 0;
    proof {
        assert(string_views(toks@).skip(0) =~= string_views(toks@));
    }
    while i < toks.len()
        invariant
            i <= toks@.len(),
            plain_decimal_toks(string_views(toks@)) == plain_decimal_toks(
                string_views(toks@).skip(i as int),
            ),
        decreases toks@.len() - i,
    {
        proof {
            assert(string_views(toks@).skip(i as int)[0] == toks@[i as int]@);
            assert(string_views(toks@).skip(i as int).drop_first() =~= string_views(toks@).skip(
                i + 1,
            ));
        }
        let v = to_chars(toks[i].as_str());
        if is_decimal_vec(&v) {
            return Some(toks[i].clone());
        }
        i += 1;
    }
    None
}

} // verus!


