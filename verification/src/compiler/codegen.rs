//! Code generation: the abstract syntax tree and the resolver tables to
//! target source text.
//!
//! The generator runs two phases. Phase one walks the type declarations,
//! building the alias table (alias name to resolved primitive, first
//! occurrence wins, aliases resolved transitively), the meaning table
//! (meaning text to primitive and normalized identifier, merged on
//! duplicates) and the inheritance table (alias name to meaning text).
//! Phase two turns each function into an emitted callable, resolving
//! parameter and return types through the alias table and the effective
//! meaning per the inheritance rule.
//!
//! Identifiers synthesized from meaning text are ASCII: upper-case letters
//! fold, every other character counts as a separator. Two distinct meaning
//! texts may normalize to one identifier; the source language leaves that
//! collision unresolved, and the generator keeps both entries rather than
//! guessing a policy. A second declaration of an already declared type
//! name, though, is dropped wholly: the first wins, and no conflicting
//! alias line is emitted.

use vstd::prelude::*;
use vstd::string::{StrSliceExecFns, StringExecFns};
use crate::strutil::{str_eq, to_chars, from_chars};
use crate::utils::ast::{AstNode, AstNodeType};
use crate::runtime::decode::{
    IntStrategy, BoolStrategy, TextStrategy, FloatStrategy, spec_int_strategy, spec_bool_strategy,
    spec_text_strategy, spec_float_strategy, int_strategy_for, bool_strategy_for,
    text_strategy_for, float_strategy_for,
};

verus! {

broadcast use vstd::string::group_string_axioms;

/// Why code generation failed.
#[derive(Debug, Clone, Copy, PartialEq, Eq, Structural)]
pub enum CodegenError {
    /// A declaration has no name attribute.
    MissingName,
    /// A declaration node is missing a required child.
    MalformedDeclaration,
    /// A function body holds no prompt statement.
    MissingPrompt,
    /// A parameter's type resolves to no known primitive.
    UnsupportedParamType,
}

/// One emitted type alias.
pub struct TypeAlias {
    pub name: String,
    pub base_type: String,
    pub meaning: Option<String>,
}

/// One resolved parameter: its name, the type written in the signature,
/// and the literal used as a sample value.
pub struct FunctionParam {
    pub name: String,
    pub rust_type: String,
    pub test_value: String,
}

/// One function ready to emit.
pub struct Function {
    pub name: String,
    pub params: Vec<FunctionParam>,
    pub return_type: String,
    pub return_base_type: String,
    pub semantic_meaning: Option<String>,
    pub prompt_template: String,
}

// ---------------------------------------------------------------------------
// Association tables over sequences of view pairs
// ---------------------------------------------------------------------------

/// First value under key `k` in a name-to-text table.
pub open spec fn lookup_sc(m: Seq<(Seq<char>, Seq<char>)>, k: Seq<char>) -> Option<Seq<char>>
    decreases m.len(),
{
    if m.len() == 0 {
        None
    } else if m[0].0 == k {
        Some(m[0].1)
    } else {
        lookup_sc(m.drop_first(), k)
    }
}

/// The view of an executable association vector.
pub open spec fn pair_views(v: Seq<(String, String)>) -> Seq<(Seq<char>, Seq<char>)> {
    v.map_values(|p: (String, String)| (p.0@, p.1@))
}

/// Looks a key up in an association vector, front to back.
pub fn assoc_get(v: &Vec<(String, String)>, k: &str) -> (r: Option<String>)
    ensures
        match r {
            Some(s) => lookup_sc(pair_views(v@), k@) == Some(s@),
            None => lookup_sc(pair_views(v@), k@) is None,
        },
{
    let mut i: usize = 0;
    proof {
        assert(pair_views(v@).skip(0) =~= pair_views(v@));
    }
    while i < v.len()
        invariant
            i <= v@.len(),
            lookup_sc(pair_views(v@), k@) == lookup_sc(pair_views(v@).skip(i as int), k@),
        decreases v@.len() - i,
    {
        proof {
            assert(pair_views(v@).skip(i as int)[0] == pair_views(v@)[i as int]);
            assert(pair_views(v@).skip(i as int).drop_first() =~= pair_views(v@).skip(i + 1));
        }
        if str_eq(v[i].0.as_str(), k) {
            return Some(v[i].1.clone());
        }
        i += 1;
    }
    None
}

// ---------------------------------------------------------------------------
// Primitive type mapping
// ---------------------------------------------------------------------------

/// The target primitive a source type name maps to; any other name passes
/// through unchanged.
pub open spec fn spec_map_prim(t: Seq<char>) -> Seq<char> {
    if t == "Int"@ {
        "i32"@
    } else if t == "Float"@ {
        "f64"@
    } else if t == "String"@ {
        "String"@
    } else if t == "Bool"@ {
        "bool"@
    } else {
        t
    }
}

/// One of the four target primitives.
pub open spec fn is_primitive(t: Seq<char>) -> bool {
    t == "i32"@ || t == "f64"@ || t == "bool"@ || t == "String"@
}

/// The sample value a primitive gets in emitted examples.
pub open spec fn spec_test_value(t: Seq<char>) -> Seq<char> {
    if t == "i32"@ {
        "123"@
    } else if t == "f64"@ {
        "45.6"@
    } else if t == "bool"@ {
        "true"@
    } else {
        "\"Test Topic\".to_string()"@
    }
}

// ---------------------------------------------------------------------------
// Normalizing meaning text to an identifier
// ---------------------------------------------------------------------------

pub open spec fn is_alnum_ascii(c: char) -> bool {
    ('a' <= c && c <= 'z') || ('A' <= c && c <= 'Z') || ('0' <= c && c <= '9')
}

/// Lower-cases a letter, and turns every non-alphanumeric character into a
/// separator.
pub open spec fn norm_char(c: char) -> char {
    if is_alnum_ascii(c) {
        crate::strutil::lower_char(c)
    } else {
        '_'
    }
}

pub open spec fn spec_norm_chars(s: Seq<char>) -> Seq<char> {
    s.map_values(|c: char| norm_char(c))
}

/// First position at or after `i` holding a separator.
pub open spec fn scan_sep_end(s: Seq<char>, i: int) -> int
    decreases s.len() - i,
{
    if 0 <= i < s.len() && s[i] != '_' {
        scan_sep_end(s, i + 1)
    } else {
        i
    }
}

pub proof fn lemma_scan_sep_end_bounds(s: Seq<char>, i: int)
    requires
        0 <= i <= s.len(),
    ensures
        i <= scan_sep_end(s, i) <= s.len(),
    decreases s.len() - i,
{
    if i < s.len() && s[i] != '_' {
        lemma_scan_sep_end_bounds(s, i + 1);
    }
}

/// The separator-delimited words of the text from `i` on, empties dropped.
pub open spec fn sep_words_from(s: Seq<char>, i: int) -> Seq<Seq<char>>
    decreases s.len() - i,
        via sep_words_from_decreases
{
    if !(0 <= i < s.len()) {
        Seq::empty()
    } else if s[i] == '_' {
        sep_words_from(s, i + 1)
    } else {
        let e = scan_sep_end(s, i + 1);
        seq![s.subrange(i, e)] + sep_words_from(s, e)
    }
}

#[via_fn]
proof fn sep_words_from_decreases(s: Seq<char>, i: int) {
    if 0 <= i < s.len() {
        lemma_scan_sep_end_bounds(s, i + 1);
    }
}

/// The fixed stop words dropped from normalized identifiers.
pub open spec fn is_stop_word(w: Seq<char>) -> bool {
    w == "a"@ || w == "an"@ || w == "the"@ || w == "of"@ || w == "in"@
}

/// The words that stay: everything but the stop words, order kept.
pub open spec fn keep_words(ws: Seq<Seq<char>>) -> Seq<Seq<char>>
    decreases ws.len(),
{
    if ws.len() == 0 {
        Seq::empty()
    } else {
        let rest = keep_words(ws.drop_last());
        if is_stop_word(ws.last()) {
            rest
        } else {
            rest.push(ws.last())
        }
    }
}

/// Words joined with single separators.
pub open spec fn join_words(ws: Seq<Seq<char>>) -> Seq<char>
    decreases ws.len(),
{
    if ws.len() == 0 {
        Seq::empty()
    } else if ws.len() == 1 {
        ws[0]
    } else {
        join_words(ws.drop_last()) + seq!['_'] + ws.last()
    }
}

/// What a meaning text normalizes to: case folded, separators collapsed,
/// stop words removed, words joined by single separators.
pub open spec fn spec_normalize(s: Seq<char>) -> Seq<char> {
    join_words(keep_words(sep_words_from(spec_norm_chars(s), 0)))
}

/// No stop word survives normalization: every kept word differs from every
/// stop word, and the kept words are exactly the other words, in order.
pub proof fn lemma_keep_words_drops_stop_words(ws: Seq<Seq<char>>)
    ensures
        forall|i: int|
            0 <= i < keep_words(ws).len() ==> !is_stop_word(#[trigger] keep_words(ws)[i]),
        forall|i: int|
            0 <= i < keep_words(ws).len() ==> ws.contains(#[trigger] keep_words(ws)[i]),
        keep_words(ws) == ws.filter(|w: Seq<char>| !is_stop_word(w)),
    decreases ws.len(),
{
    reveal(Seq::filter);
    if ws.len() > 0 {
        lemma_keep_words_drops_stop_words(ws.drop_last());
        let rest = keep_words(ws.drop_last());
        assert forall|i: int| 0 <= i < keep_words(ws).len() implies ws.contains(
            #[trigger] keep_words(ws)[i],
        ) by {
            if i < rest.len() {
                assert(keep_words(ws)[i] == rest[i]);
                assert(ws.drop_last().contains(rest[i]));
                let j = choose|j: int| 0 <= j < ws.drop_last().len() && ws.drop_last()[j] == rest[i];
                assert(ws[j] == rest[i]);
            } else {
                assert(keep_words(ws)[i] == ws.last());
            }
        }
    }
}

/// Folds case and maps separators over the whole text.
fn norm_chars_of(meaning: &str) -> (r: Vec<char>)
    ensures
        r@ == spec_norm_chars(meaning@),
{
    let v = to_chars(meaning);
    let n = v.len();
    let mut mapped: Vec<char> = Vec::new();
    let mut i: usize = 0;
    while i < n
        invariant
            i <= n,
            n == v@.len(),
            v@ == meaning@,
            mapped@ == spec_norm_chars(meaning@).subrange(0, i as int),
        decreases n - i,
    {
        let c = v[i];
        let mc: char = if ('a' <= c && c <= 'z') || ('0' <= c && c <= '9') {
            c
        } else if 'A' <= c && c <= 'Z' {
            let u: u32 = c as u32;
            ((u + 32) as u8) as char
        } else {
            '_'
        };
        proof {
            assert(mc == norm_char(c));
        }
        mapped.push(mc);
        proof {
            assert(mapped@ =~= spec_norm_chars(meaning@).subrange(0, i + 1 as int));
        }
        i += 1;
    }
    proof {
        assert(mapped@ =~= spec_norm_chars(meaning@));
    }
    mapped
}

/// Splits on the separator, dropping empties.
#[verifier::loop_isolation(false)]
fn split_sep(mapped: &Vec<char>) -> (r: Vec<String>)
    ensures
        crate::strutil::string_views(r@) == sep_words_from(mapped@, 0),
{
    let n = mapped.len();
    let mut words: Vec<String> = Vec::new();
    let mut j: usize = 0;
    proof {
        assert(crate::strutil::string_views(words@) + sep_words_from(mapped@, 0) =~= sep_words_from(
            mapped@,
            0,
        ));
    }
    while j < n
        invariant
            j <= n,
            crate::strutil::string_views(words@) + sep_words_from(mapped@, j as int)
                == sep_words_from(mapped@, 0),
        decreases n - j,
    {
        if mapped[j] == '_' {
            j += 1;
        } else {
            let mut e = j + 1;
            while e < n && mapped[e] != '_'
                invariant
                    j + 1 <= e <= n,
                    scan_sep_end(mapped@, j + 1 as int) == scan_sep_end(mapped@, e as int),
                decreases n - e,
            {
                e += 1;
            }
            proof {
                assert(scan_sep_end(mapped@, j + 1 as int) == e);
            }
            let mut wchars: Vec<char> = Vec::new();
            let mut k: usize = j;
            while k < e
                invariant
                    j <= k <= e <= n,
                    wchars@ == mapped@.subrange(j as int, k as int),
                decreases e - k,
            {
                wchars.push(mapped[k]);
                proof {
                    assert(wchars@ =~= mapped@.subrange(j as int, k + 1 as int));
                }
                k += 1;
            }
            words.push(from_chars(&wchars));
            proof {
                assert(crate::strutil::string_views(words@) =~= crate::strutil::string_views(
                    words@.drop_last(),
                ) + seq![mapped@.subrange(j as int, e as int)]);
                assert(crate::strutil::string_views(words@) + sep_words_from(mapped@, e as int)
                    =~= crate::strutil::string_views(words@.drop_last()) + (seq![
                    mapped@.subrange(j as int, e as int),
                ] + sep_words_from(mapped@, e as int)));
            }
            j = e;
        }
    }
    proof {
        assert(crate::strutil::string_views(words@) =~= sep_words_from(mapped@, 0));
    }
    words
}

/// Keeps the words that are no stop words, in order.
#[verifier::loop_isolation(false)]
fn drop_stop_words(words: &Vec<String>) -> (r: Vec<String>)
    ensures
        crate::strutil::string_views(r@) == keep_words(crate::strutil::string_views(words@)),
{
    let ghost all_words = crate::strutil::string_views(words@);
    let mut kept: Vec<String> = Vec::new();
    let mut w: usize = 0;
    proof {
        assert(all_words.subrange(0, 0) =~= Seq::<Seq<char>>::empty());
    }
    while w < words.len()
        invariant
            w <= words@.len(),
            crate::strutil::string_views(kept@) == keep_words(all_words.subrange(0, w as int)),
        decreases words@.len() - w,
    {
        proof {
            assert(all_words.subrange(0, w + 1 as int).drop_last() =~= all_words.subrange(
                0,
                w as int,
            ));
            assert(all_words.subrange(0, w + 1 as int).last() == words@[w as int]@);
        }
        let ws = &words[w];
        let stop = str_eq(ws.as_str(), "a") || str_eq(ws.as_str(), "an") || str_eq(
            ws.as_str(),
            "the",
        ) || str_eq(ws.as_str(), "of") || str_eq(ws.as_str(), "in");
        if !stop {
            kept.push(ws.clone());
            proof {
                assert(crate::strutil::string_views(kept@) =~= crate::strutil::string_views(
                    kept@.drop_last(),
                ).push(words@[w as int]@));
            }
        }
        w += 1;
    }
    proof {
        assert(all_words.subrange(0, words@.len() as int) =~= all_words);
    }
    kept
}

/// Joins words with single separators.
#[verifier::loop_isolation(false)]
fn join_with_sep(kept: &Vec<String>) -> (r: String)
    ensures
        r@ == join_words(crate::strutil::string_views(kept@)),
{
    let ghost kw = crate::strutil::string_views(kept@);
    let mut out = String::new();
    let mut q: usize = 0;
    proof {
        assert(join_words(kw.subrange(0, 0)) =~= Seq::<char>::empty());
    }
    while q < kept.len()
        invariant
            q <= kept@.len(),
            out@ == join_words(kw.subrange(0, q as int)),
        decreases kept@.len() - q,
    {
        proof {
            assert(kw.subrange(0, q + 1 as int).drop_last() =~= kw.subrange(0, q as int));
            assert(kw.subrange(0, q + 1 as int).last() == kept@[q as int]@);
        }
        if q > 0 {
            out.append("_");
            proof {
                reveal_strlit("_");
                assert(out@ =~= join_words(kw.subrange(0, q as int)) + seq!['_']);
            }
        }
        out.append(kept[q].as_str());
        proof {
            if q == 0 {
                assert(out@ =~= kw.subrange(0, 1)[0]);
            } else {
                assert(out@ =~= join_words(kw.subrange(0, q as int)) + seq!['_'] + kw.subrange(
                    0,
                    q + 1 as int,
                ).last());
            }
        }
        q += 1;
    }
    proof {
        assert(kw.subrange(0, kept@.len() as int) =~= kw);
    }
    out
}

/// A character a normalized identifier may hold: a lower-case letter, a
/// digit, or the separator.
pub open spec fn is_ident_char_lower(c: char) -> bool {
    ('a' <= c && c <= 'z') || ('0' <= c && c <= '9') || c == '_'
}

proof fn lemma_scan_sep_region(s: Seq<char>, i: int, k: int)
    requires
        0 <= i <= k < scan_sep_end(s, i),
        scan_sep_end(s, i) <= s.len(),
    ensures
        s[k] != '_',
    decreases k - i,
{
    lemma_scan_sep_end_bounds(s, if i < s.len() { i } else { s.len() as int });
    if i < k {
        lemma_scan_sep_region(s, i + 1, k);
    }
}

/// Every character of every separated word is valid and no separator.
proof fn lemma_sep_words_chars(s: Seq<char>, i: int)
    requires
        0 <= i,
        forall|k: int| 0 <= k < s.len() ==> is_ident_char_lower(#[trigger] s[k]),
    ensures
        forall|a: int, b: int|
            0 <= a < sep_words_from(s, i).len() && 0 <= b < sep_words_from(s, i)[a].len()
                ==> #[trigger] sep_words_from(s, i)[a][b] != '_' && is_ident_char_lower(
                sep_words_from(s, i)[a][b],
            ),
    decreases s.len() - i,
{
    if 0 <= i < s.len() {
        if s[i] == '_' {
            lemma_sep_words_chars(s, i + 1);
            assert(sep_words_from(s, i) == sep_words_from(s, i + 1));
        } else {
            let e = scan_sep_end(s, i + 1);
            lemma_scan_sep_end_bounds(s, i + 1);
            lemma_sep_words_chars(s, e);
            let ws = sep_words_from(s, i);
            let rest = sep_words_from(s, e);
            assert forall|a: int, b: int|
                0 <= a < ws.len() && 0 <= b < ws[a].len() implies #[trigger] ws[a][b] != '_'
                && is_ident_char_lower(ws[a][b]) by {
                if a == 0 {
                    assert(ws[0] == s.subrange(i, e));
                    assert(ws[0][b] == s[i + b]);
                    if b > 0 {
                        lemma_scan_sep_region(s, i + 1, i + b);
                    }
                } else {
                    assert(ws[a] == rest[a - 1]);
                    assert(sep_words_from(s, e)[a - 1][b] == ws[a][b]);
                    assert(sep_words_from(s, e)[a - 1][b] != '_');
                }
            }
        }
    } else {
        assert(sep_words_from(s, i) =~= Seq::<Seq<char>>::empty());
    }
}

/// Every character of joined words is a word character or the separator.
proof fn lemma_join_chars(ws: Seq<Seq<char>>)
    ensures
        forall|k: int|
            0 <= k < join_words(ws).len() ==> (#[trigger] join_words(ws)[k] == '_' || exists|
                a: int,
                b: int,
            |
                0 <= a < ws.len() && 0 <= b < ws[a].len() && ws[a][b] == join_words(ws)[k]),
    decreases ws.len(),
{
    if ws.len() <= 1 {
        if ws.len() == 1 {
            assert forall|k: int| 0 <= k < join_words(ws).len() implies (
            #[trigger] join_words(ws)[k] == '_' || exists|a: int, b: int|
                0 <= a < ws.len() && 0 <= b < ws[a].len() && ws[a][b] == join_words(ws)[k]) by {
                assert(ws[0][k] == join_words(ws)[k]);
            }
        }
    } else {
        lemma_join_chars(ws.drop_last());
        let pre = join_words(ws.drop_last());
        assert forall|k: int| 0 <= k < join_words(ws).len() implies (#[trigger] join_words(ws)[k]
            == '_' || exists|a: int, b: int|
            0 <= a < ws.len() && 0 <= b < ws[a].len() && ws[a][b] == join_words(ws)[k]) by {
            if k < pre.len() {
                assert(join_words(ws)[k] == pre[k]);
                if pre[k] != '_' {
                    let (a, b) = choose|a: int, b: int|
                        0 <= a < ws.drop_last().len() && 0 <= b < ws.drop_last()[a].len()
                            && ws.drop_last()[a][b] == pre[k];
                    assert(ws[a][b] == join_words(ws)[k]);
                }
            } else if k == pre.len() {
                assert(join_words(ws)[k] == '_');
            } else {
                assert(join_words(ws)[k] == ws.last()[k - pre.len() - 1]);
                assert(ws[ws.len() - 1][k - pre.len() - 1] == join_words(ws)[k]);
            }
        }
    }
}

/// A normalized identifier is a valid bare identifier: every character a
/// lower-case letter, a digit, or the separator.
pub proof fn lemma_normalize_chars_valid(s: Seq<char>)
    ensures
        forall|k: int|
            0 <= k < spec_normalize(s).len() ==> is_ident_char_lower(
                #[trigger] spec_normalize(s)[k],
            ),
{
    let mapped = spec_norm_chars(s);
    assert forall|k: int| 0 <= k < mapped.len() implies is_ident_char_lower(
        #[trigger] mapped[k],
    ) by {
        let c = s[k];
        assert(mapped[k] == norm_char(c));
        if is_alnum_ascii(c) && 'A' <= c && c <= 'Z' {
            assert('a' <= ((c as u32) + 32) as char <= 'z');
        }
    }
    let words = sep_words_from(mapped, 0);
    lemma_sep_words_chars(mapped, 0);
    let kept = keep_words(words);
    lemma_keep_words_drops_stop_words(words);
    lemma_join_chars(kept);
    assert forall|k: int| 0 <= k < spec_normalize(s).len() implies is_ident_char_lower(
        #[trigger] spec_normalize(s)[k],
    ) by {
        let c = spec_normalize(s)[k];
        if c != '_' {
            let (a, b) = choose|a: int, b: int|
                0 <= a < kept.len() && 0 <= b < kept[a].len() && kept[a][b] == c;
            assert(words.contains(kept[a]));
            let w = choose|w: int| 0 <= w < words.len() && words[w] == kept[a];
            assert(sep_words_from(mapped, 0)[w][b] == c);
            assert(is_ident_char_lower(sep_words_from(mapped, 0)[w][b]));
        }
    }
}

// ---------------------------------------------------------------------------
// Type information of a type node
// ---------------------------------------------------------------------------

/// The type name a type node carries: the name of a basic type, the inner
/// name of a meaning-wrapped type; a unit marker anywhere the node is not a
/// type.
pub open spec fn type_info_alias(n: AstNode) -> Seq<char>
    decreases n,
{
    if n.node_type == AstNodeType::BasicType {
        match n.str_prop("type"@) {
            Some(t) => t,
            None => "()"@,
        }
    } else if n.node_type == AstNodeType::MeaningType && n.children@.len() >= 1 {
        type_info_alias(n.children@[0])
    } else {
        "()"@
    }
}

/// The meaning a type node carries directly: only a meaning-wrapped type
/// has one.
pub open spec fn type_info_meaning(n: AstNode) -> Option<Seq<char>> {
    if n.node_type == AstNodeType::MeaningType {
        n.str_prop("meaning"@)
    } else {
        None
    }
}

// ---------------------------------------------------------------------------
// The resolver tables and how one type declaration changes them
// ---------------------------------------------------------------------------

/// First meaning entry under the meaning text `m`: (meaning, base,
/// normalized identifier).
pub open spec fn lookup_m(
    es: Seq<(Seq<char>, Seq<char>, Seq<char>)>,
    m: Seq<char>,
) -> Option<(Seq<char>, Seq<char>, Seq<char>)>
    decreases es.len(),
{
    if es.len() == 0 {
        None
    } else if es[0].0 == m {
        Some(es[0])
    } else {
        lookup_m(es.drop_first(), m)
    }
}

/// One meaning with the primitive it was declared at and its normalized
/// identifier.
pub struct MeaningEntry {
    pub meaning: String,
    pub base_type: String,
    pub normalized: String,
}

pub open spec fn entry_views(v: Seq<MeaningEntry>) -> Seq<(Seq<char>, Seq<char>, Seq<char>)> {
    v.map_values(|e: MeaningEntry| (e.meaning@, e.base_type@, e.normalized@))
}

pub open spec fn alias_views(v: Seq<TypeAlias>) -> Seq<(Seq<char>, Seq<char>)> {
    v.map_values(|a: TypeAlias| (a.name@, a.base_type@))
}

/// The state of the resolver after some prefix of the declarations.
pub struct GenTables {
    /// Every emitted alias, in declaration order: name and resolved base.
    pub aliases: Seq<(Seq<char>, Seq<char>)>,
    /// Alias name to resolved primitive; the first declaration wins.
    pub amap: Seq<(Seq<char>, Seq<char>)>,
    /// Alias name to its declared meaning; the first declaration wins.
    pub mmap: Seq<(Seq<char>, Seq<char>)>,
    /// The distinct meanings seen, in order of first appearance.
    pub entries: Seq<(Seq<char>, Seq<char>, Seq<char>)>,
}

pub open spec fn empty_tables() -> GenTables {
    GenTables { aliases: Seq::empty(), amap: Seq::empty(), mmap: Seq::empty(), entries: Seq::empty() }
}

/// A type declaration carries its name and its definition.
pub open spec fn decl_ok(n: AstNode) -> bool {
    n.str_prop("name"@) is Some && n.children@.len() >= 1
}

pub open spec fn name_of(n: AstNode) -> Seq<char> {
    match n.str_prop("name"@) {
        Some(s) => s,
        None => Seq::empty(),
    }
}

/// What a declaration's definition resolves to: through the alias table
/// when the written name is itself an alias, so chains of aliases land on
/// the first primitive.
pub open spec fn decl_resolved(t: GenTables, n: AstNode) -> Seq<char> {
    let alias0 = type_info_alias(n.children@[0]);
    match lookup_sc(t.amap, alias0) {
        Some(b) => b,
        None => spec_map_prim(alias0),
    }
}

/// How one type declaration advances the tables. A declaration of a name
/// the table already holds is dropped wholly: the first declaration wins,
/// and no second alias line for the same name is ever emitted.
pub open spec fn spec_apply_type_decl(t: GenTables, n: AstNode) -> GenTables {
    let name = name_of(n);
    let resolved = decl_resolved(t, n);
    let meaning = type_info_meaning(n.children@[0]);
    if lookup_sc(t.amap, name) is Some {
        t
    } else {
        GenTables {
            aliases: t.aliases.push((name, resolved)),
            amap: t.amap.push((name, resolved)),
            mmap: match meaning {
                Some(m) => if lookup_sc(t.mmap, name) is Some {
                    t.mmap
                } else {
                    t.mmap.push((name, m))
                },
                None => t.mmap,
            },
            entries: match meaning {
                Some(m) => if lookup_m(t.entries, m) is Some {
                    t.entries
                } else {
                    t.entries.push((m, resolved, spec_normalize(m)))
                },
                None => t.entries,
            },
        }
    }
}

/// The tables after the first `k` declarations.
pub open spec fn tables_upto(cs: Seq<AstNode>, k: int) -> GenTables
    decreases k,
{
    if k <= 0 {
        empty_tables()
    } else {
        let t = tables_upto(cs, k - 1);
        let n = cs[k - 1];
        if n.node_type == AstNodeType::TypeDecl && decl_ok(n) {
            spec_apply_type_decl(t, n)
        } else {
            t
        }
    }
}

/// A node built from a type shape carries the shape's base name.
pub proof fn lemma_type_info_alias_of_shape(n: AstNode, sh: crate::compiler::parser::TypeShape)
    requires
        crate::compiler::parser::type_node_matches(n, sh),
    ensures
        type_info_alias(n) == crate::compiler::parser::shape_alias(sh),
    decreases n,
{
    match sh {
        crate::compiler::parser::TypeShape::Basic { name } => {
        },
        crate::compiler::parser::TypeShape::Wrapped { meaning, inner } => {
            lemma_type_info_alias_of_shape(n.children@[0], *inner);
        },
    }
}

pub struct CodeGenerator {}

impl CodeGenerator {
    pub fn new() -> (r: CodeGenerator) {
        CodeGenerator {  }
    }

    /// Maps a source type name to the target primitive it stands for.
    pub fn map_to_rust_type(&self, vibe_type: &str) -> (r: String)
        ensures
            r@ == spec_map_prim(vibe_type@),
    {
        if str_eq(vibe_type, "Int") {
            "i32".to_owned()
        } else if str_eq(vibe_type, "Float") {
            "f64".to_owned()
        } else if str_eq(vibe_type, "String") {
            "String".to_owned()
        } else if str_eq(vibe_type, "Bool") {
            "bool".to_owned()
        } else {
            vibe_type.to_owned()
        }
    }

    /// The sample value emitted for a parameter of the given primitive.
    pub fn generate_test_value(&self, base_rust_type: &str) -> (r: String)
        requires
            is_primitive(base_rust_type@),
        ensures
            r@ == spec_test_value(base_rust_type@),
    {
        if str_eq(base_rust_type, "i32") {
            "123".to_owned()
        } else if str_eq(base_rust_type, "f64") {
            "45.6".to_owned()
        } else if str_eq(base_rust_type, "bool") {
            "true".to_owned()
        } else {
            "\"Test Topic\".to_string()".to_owned()
        }
    }

    /// Normalizes a meaning text to a bare identifier, exactly as
    /// `spec_normalize` says.
    pub fn normalize_meaning_to_function_name(&self, meaning: &str) -> (r: String)
        ensures
            r@ == spec_normalize(meaning@),
    {
        let mapped = norm_chars_of(meaning);
        let words = split_sep(&mapped);
        let kept = drop_stop_words(&words);
        join_with_sep(&kept)
    }

    /// The alias name, resolved primitive and direct meaning of a type
    /// node.
    pub fn get_type_info_from_node(&self, type_node: &AstNode) -> (r: (String, String, Option<
        String,
    >))
        ensures
            r.0@ == type_info_alias(*type_node),
            r.1@ == spec_map_prim(type_info_alias(*type_node)),
            match r.2 {
                Some(m) => type_info_meaning(*type_node) == Some(m@),
                None => type_info_meaning(*type_node) is None,
            },
        decreases *type_node,
    {
        if type_node.node_type == AstNodeType::BasicType {
            let alias = match type_node.get_string("type") {
                Some(t) => t,
                None => "()".to_owned(),
            };
            let base = self.map_to_rust_type(alias.as_str());
            (alias, base, None)
        } else if type_node.node_type == AstNodeType::MeaningType {
            let meaning = type_node.get_string("meaning");
            if type_node.children.len() >= 1 {
                let inner = self.get_type_info_from_node(&type_node.children[0]);
                (inner.0, inner.1, meaning)
            } else {
                ("()".to_owned(), self.map_to_rust_type("()"), meaning)
            }
        } else {
            ("()".to_owned(), self.map_to_rust_type("()"), None)
        }
    }

    /// Records one type declaration in the tables, exactly as
    /// `spec_apply_type_decl` says.
    pub fn process_type_decl_node(
        &self,
        node: &AstNode,
        type_aliases: &mut Vec<TypeAlias>,
        semantic_meanings: &mut Vec<MeaningEntry>,
        type_alias_map: &mut Vec<(String, String)>,
        type_meaning_map: &mut Vec<(String, String)>,
    ) -> (r: Result<(), CodegenError>)
        ensures
            r is Ok <==> decl_ok(*node),
            r is Ok ==> ({
                let t0 = (GenTables {
                    aliases: alias_views(old(type_aliases)@),
                    amap: pair_views(old(type_alias_map)@),
                    mmap: pair_views(old(type_meaning_map)@),
                    entries: entry_views(old(semantic_meanings)@),
                });
                let t1 = spec_apply_type_decl(t0, *node);
                alias_views(final(type_aliases)@) == t1.aliases && pair_views(
                    final(type_alias_map)@,
                ) == t1.amap && pair_views(final(type_meaning_map)@) == t1.mmap && entry_views(
                    final(semantic_meanings)@,
                ) == t1.entries
            }),
            r is Err ==> *final(type_aliases) == *old(type_aliases) && *final(semantic_meanings)
                == *old(semantic_meanings) && *final(type_alias_map) == *old(type_alias_map)
                && *final(type_meaning_map) == *old(type_meaning_map),
            r matches Err(e) ==> (e == CodegenError::MissingName || e
                == CodegenError::MalformedDeclaration),
    {
        let name = match node.get_string("name") {
            Some(n) => n,
            None => {
                return Err(CodegenError::MissingName);
            },
        };
        if node.children.len() < 1 {
            return Err(CodegenError::MalformedDeclaration);
        }
        // A second declaration of an already declared name is ignored
        // wholly: the first wins.
        match assoc_get(type_alias_map, name.as_str()) {
            Some(_) => {
                return Ok(());
            },
            None => (),
        }
        let info = self.get_type_info_from_node(&node.children[0]);
        let resolved = match assoc_get(type_alias_map, info.0.as_str()) {
            Some(b) => b,
            None => info.1,
        };
        match &info.2 {
            Some(m) => {
                if !meaning_present(semantic_meanings, m.as_str()) {
                    let normalized = self.normalize_meaning_to_function_name(m.as_str());
                    let entry = MeaningEntry {
                        meaning: m.clone(),
                        base_type: resolved.clone(),
                        normalized,
                    };
                    semantic_meanings.push(entry);
                    proof {
                        assert(entry_views(semantic_meanings@) =~= entry_views(
                            semantic_meanings@.drop_last(),
                        ).push((m@, resolved@, spec_normalize(m@))));
                    }
                }
                match assoc_get(type_meaning_map, name.as_str()) {
                    Some(_) => (),
                    None => {
                        let p = (name.clone(), m.clone());
                        type_meaning_map.push(p);
                        proof {
                            assert(pair_views(type_meaning_map@) =~= pair_views(
                                type_meaning_map@.drop_last(),
                            ).push((name@, m@)));
                        }
                    },
                }
            },
            None => (),
        }
        let p = (name.clone(), resolved.clone());
        type_alias_map.push(p);
        proof {
            assert(pair_views(type_alias_map@) =~= pair_views(type_alias_map@.drop_last()).push(
                (name@, resolved@),
            ));
        }
        let entry = TypeAlias { name, base_type: resolved, meaning: info.2 };
        type_aliases.push(entry);
        proof {
            assert(alias_views(type_aliases@) =~= alias_views(type_aliases@.drop_last()).push(
                (entry.name@, entry.base_type@),
            ));
        }
        Ok(())
    }

    /// Resolves one function node: its name, its parameters through the
    /// alias table, its return type, its effective meaning, and its prompt
    /// template.
    #[verifier::loop_isolation(false)]
    #[verifier::rlimit(100)]
    pub fn process_function_node(
        &self,
        node: &AstNode,
        type_alias_map: &Vec<(String, String)>,
        type_meaning_map: &Vec<(String, String)>,
    ) -> (r: Result<Function, CodegenError>)
        ensures
            r is Ok <==> fn_node_ok(*node, pair_views(type_alias_map@)),
            r matches Ok(f) ==> node.str_prop("name"@) == Some(f.name@) && f.params@.len()
                == all_params(node.children@).len() && (forall|i: int|
                0 <= i < f.params@.len() ==> param_view_of(
                    #[trigger] all_params(node.children@)[i],
                    pair_views(type_alias_map@),
                ) == Some(
                    (f.params@[i].name@, f.params@[i].rust_type@, f.params@[i].test_value@),
                )) && f.return_type@ == ret_sig(node.children@, pair_views(type_alias_map@))
                && f.return_base_type@ == ret_base(node.children@, pair_views(type_alias_map@))
                && (match f.semantic_meaning {
                Some(m) => Some(m@),
                None => None::<Seq<char>>,
            }) == effective_meaning(
                node.children@,
                pair_views(type_alias_map@),
                pair_views(type_meaning_map@),
            ) && func_prompt(node.children@) == Some(f.prompt_template@),
    {
        let ghost amap = pair_views(type_alias_map@);
        let ghost mmap = pair_views(type_meaning_map@);
        let ghost cs = node.children@;
        let name = match node.get_string("name") {
            Some(n) => n,
            None => {
                return Err(CodegenError::MissingName);
            },
        };
        let mut params: Vec<FunctionParam> = Vec::new();
        let mut return_type: String = "()".to_owned();
        let mut return_base_type: String = "()".to_owned();
        let mut semantic_meaning: Option<String> = None;
        let mut prompt_template: Option<String> = None;
        let mut i: usize = 0;
        proof {
            assert(cs.subrange(0, 0) =~= Seq::<AstNode>::empty());
        }
        while i < node.children.len()
            invariant
                i <= cs.len(),
                params@.len() == all_params(cs.subrange(0, i as int)).len(),
                forall|k: int|
                    0 <= k < params@.len() ==> param_view_of(
                        #[trigger] all_params(cs.subrange(0, i as int))[k],
                        amap,
                    ) == Some((params@[k].name@, params@[k].rust_type@, params@[k].test_value@)),
                forall|a: int, b: int|
                    0 <= a < i && cs[a].node_type == AstNodeType::ParamList && 0 <= b
                        < cs[a].children@.len() ==> param_view_of(
                        #[trigger] cs[a].children@[b],
                        amap,
                    ) is Some,
                return_type@ == ret_sig(cs.subrange(0, i as int), amap),
                return_base_type@ == ret_base(cs.subrange(0, i as int), amap),
                (match semantic_meaning {
                    Some(m) => Some(m@),
                    None => None::<Seq<char>>,
                }) == effective_meaning(cs.subrange(0, i as int), amap, mmap),
                (match prompt_template {
                    Some(t) => Some(t@),
                    None => None::<Seq<char>>,
                }) == func_prompt(cs.subrange(0, i as int)),
            decreases cs.len() - i,
        {
            let ghost pre = cs.subrange(0, i as int);
            let ghost post = cs.subrange(0, i + 1 as int);
            proof {
                assert(post.drop_last() =~= pre);
                assert(post.last() == cs[i as int]);
            }
            let child = &node.children[i];
            let k = child.node_type;
            if k == AstNodeType::ParamList {
                let ghost base_params = all_params(pre);
                proof {
                    assert(all_params(post) =~= base_params + cs[i as int].children@);
                    assert(base_params + cs[i as int].children@.subrange(0, 0) =~= base_params);
                }
                let mut j: usize = 0;
                while j < child.children.len()
                    invariant
                        j <= cs[i as int].children@.len(),
                        params@.len() == (base_params + cs[i as int].children@.subrange(
                            0,
                            j as int,
                        )).len(),
                        forall|k2: int|
                            0 <= k2 < params@.len() ==> param_view_of(
                                #[trigger] (base_params + cs[i as int].children@.subrange(
                                    0,
                                    j as int,
                                ))[k2],
                                amap,
                            ) == Some(
                                (
                                    params@[k2].name@,
                                    params@[k2].rust_type@,
                                    params@[k2].test_value@,
                                ),
                            ),
                        forall|b: int|
                            0 <= b < j ==> param_view_of(
                                #[trigger] cs[i as int].children@[b],
                                amap,
                            ) is Some,
                    decreases cs[i as int].children@.len() - j,
                {
                    let ghost ppre = base_params + cs[i as int].children@.subrange(0, j as int);
                    let ghost ppost = base_params + cs[i as int].children@.subrange(
                        0,
                        j + 1 as int,
                    );
                    proof {
                        assert(ppost.drop_last() =~= ppre);
                        assert(ppost.last() == cs[i as int].children@[j as int]);
                        assert(forall|k2: int| 0 <= k2 < ppre.len() ==> ppost[k2] == ppre[k2]);
                    }
                    let pnode = &child.children[j];
                    let pname = match pnode.get_string("name") {
                        Some(n) => n,
                        None => {
                            proof {
                                assert(param_view_of(cs[i as int].children@[j as int], amap)
                                    is None);
                            }
                            return Err(CodegenError::MissingName);
                        },
                    };
                    if pnode.children.len() < 1 {
                        proof {
                            assert(param_view_of(cs[i as int].children@[j as int], amap) is None);
                        }
                        return Err(CodegenError::MalformedDeclaration);
                    }
                    let info = self.get_type_info_from_node(&pnode.children[0]);
                    let looked = assoc_get(type_alias_map, info.0.as_str());
                    let rust_type: String;
                    let resolved: String;
                    match looked {
                        Some(b) => {
                            rust_type = info.0;
                            resolved = b;
                        },
                        None => {
                            rust_type = info.1.clone();
                            resolved = info.1;
                        },
                    }
                    let prim = str_eq(resolved.as_str(), "i32") || str_eq(resolved.as_str(), "f64")
                        || str_eq(resolved.as_str(), "bool") || str_eq(resolved.as_str(), "String");
                    if !prim {
                        proof {
                            assert(param_view_of(cs[i as int].children@[j as int], amap) is None);
                        }
                        return Err(CodegenError::UnsupportedParamType);
                    }
                    let test_value = self.generate_test_value(resolved.as_str());
                    let fp = FunctionParam { name: pname, rust_type, test_value };
                    proof {
                        assert(param_view_of(cs[i as int].children@[j as int], amap) == Some(
                            (fp.name@, fp.rust_type@, fp.test_value@),
                        ));
                    }
                    params.push(fp);
                    j += 1;
                }
                proof {
                    assert(cs[i as int].children@.subrange(
                        0,
                        cs[i as int].children@.len() as int,
                    ) =~= cs[i as int].children@);
                    assert(last_type_child(post) == last_type_child(pre));
                    assert(func_prompt(post) == func_prompt(pre));
                }
            } else if k == AstNodeType::BasicType || k == AstNodeType::MeaningType {
                let info = self.get_type_info_from_node(child);
                match assoc_get(type_alias_map, info.0.as_str()) {
                    Some(b) => {
                        return_type = info.0;
                        return_base_type = b;
                    },
                    None => {
                        return_type = info.1.clone();
                        return_base_type = info.1;
                    },
                }
                semantic_meaning = match info.2 {
                    Some(m) => Some(m),
                    None => assoc_get(type_meaning_map, return_type.as_str()),
                };
                proof {
                    assert(last_type_child(post) == Some(cs[i as int]));
                    assert(all_params(post) =~= all_params(pre) + Seq::<AstNode>::empty());
                    assert(all_params(post) =~= all_params(pre));
                    assert(func_prompt(post) == func_prompt(pre));
                }
            } else if k == AstNodeType::FunctionBody || k == AstNodeType::Block {
                let ghost bs = cs[i as int].children@;
                let mut j: usize = 0;
                let mut found: Option<String> = None;
                proof {
                    assert(bs.skip(0) =~= bs);
                }
                while j < child.children.len()
                    invariant
                        j <= bs.len(),
                        match found {
                            Some(t) => block_prompt(bs) == Some(t@),
                            None => block_prompt(bs) == block_prompt(bs.skip(j as int)),
                        },
                        found is Some ==> j == bs.len(),
                    decreases bs.len() - j,
                {
                    proof {
                        assert(bs.skip(j as int)[0] == bs[j as int]);
                        assert(bs.skip(j as int).drop_first() =~= bs.skip(j + 1));
                    }
                    let st = &child.children[j];
                    if st.node_type == AstNodeType::PromptBlock {
                        match st.get_string("template") {
                            Some(t) => {
                                found = Some(t);
                                j = child.children.len();
                            },
                            None => {
                                j += 1;
                            },
                        }
                    } else {
                        j += 1;
                    }
                }
                proof {
                    if found is None {
                        assert(bs.skip(bs.len() as int) =~= Seq::<AstNode>::empty());
                    }
                }
                match found {
                    Some(t) => {
                        prompt_template = Some(t);
                    },
                    None => (),
                }
                proof {
                    assert(all_params(post) =~= all_params(pre) + Seq::<AstNode>::empty());
                    assert(all_params(post) =~= all_params(pre));
                    assert(last_type_child(post) == last_type_child(pre));
                }
            } else {
                proof {
                    assert(all_params(post) =~= all_params(pre) + Seq::<AstNode>::empty());
                    assert(all_params(post) =~= all_params(pre));
                    assert(last_type_child(post) == last_type_child(pre));
                    assert(func_prompt(post) == func_prompt(pre));
                }
            }
            i += 1;
        }
        proof {
            assert(cs.subrange(0, cs.len() as int) =~= cs);
        }
        let template = match prompt_template {
            Some(t) => t,
            None => {
                return Err(CodegenError::MissingPrompt);
            },
        };
        Ok(
            Function {
                name,
                params,
                return_type,
                return_base_type,
                semantic_meaning,
                prompt_template: template,
            },
        )
    }

    /// Generates the whole artifact: one alias per type declaration, one
    /// callable per function (class methods too), one extraction function
    /// per distinct meaning with the body its keyword category picks, one
    /// decode dispatcher per primitive, and the runtime support the
    /// callables lean on. The result is promised to hold the alias line of
    /// every declaration; for every top-level function its signature, its
    /// template binding, one substitution per parameter, its meaning
    /// binding and its conversion; for every meaning the full text of its
    /// synthesized extraction function and its dispatch arm; and each
    /// dispatcher's direct-parse head and generic-fallback tail.
    #[verifier::loop_isolation(false)]
    #[verifier::rlimit(100)]
    pub fn generate(&self, ast: &AstNode, as_lib: bool) -> (r: Result<String, CodegenError>)
        ensures
            r is Ok <==> gen_ok(*ast),
            r matches Ok(out) ==> ({
                let cs = ast.children@;
                let t = tables_upto(cs, cs.len() as int);
                &&& forall|j: int|
                    0 <= j < t.aliases.len() ==> crate::strutil::spec_contains(
                        out@,
                        alias_line((#[trigger] t.aliases[j]).0, t.aliases[j].1),
                    )
                &&& forall|k: int|
                    0 <= k < cs.len() && (#[trigger] cs[k]).node_type == AstNodeType::FunctionDecl
                        ==> crate::strutil::spec_contains(out@, sig_line(cs[k], t.amap))
                        && crate::strutil::spec_contains(out@, template_stmt(cs[k]))
                        && crate::strutil::spec_contains(
                        out@,
                        meaning_stmt(cs[k], t.amap, t.mmap),
                    ) && crate::strutil::spec_contains(
                        out@,
                        conv_stmt(ret_base(cs[k].children@, t.amap)),
                    )
                &&& forall|k: int, i: int|
                    0 <= k < cs.len() && (#[trigger] cs[k]).node_type == AstNodeType::FunctionDecl
                        && 0 <= i < all_params(cs[k].children@).len()
                        ==> crate::strutil::spec_contains(
                        out@,
                        subst_stmt_of(#[trigger] all_params(cs[k].children@)[i], t.amap),
                    )
                &&& forall|e: int|
                    0 <= e < t.entries.len() ==> crate::strutil::spec_contains(
                        out@,
                        extractor_text(#[trigger] t.entries[e]),
                    )
                &&& crate::strutil::spec_contains(out@, int_dispatcher_head())
                &&& crate::strutil::spec_contains(out@, float_dispatcher_head())
                &&& crate::strutil::spec_contains(out@, bool_dispatcher_head())
                &&& crate::strutil::spec_contains(out@, string_dispatcher_head())
                &&& crate::strutil::spec_contains(out@, int_dispatcher_foot())
                &&& crate::strutil::spec_contains(out@, float_dispatcher_foot())
                &&& crate::strutil::spec_contains(out@, bool_dispatcher_foot())
                &&& crate::strutil::spec_contains(out@, string_dispatcher_foot())
                &&& forall|e: int|
                    0 <= e < t.entries.len() && is_primitive((#[trigger] t.entries[e]).1)
                        ==> crate::strutil::spec_contains(out@, dispatch_arm(t.entries[e]))
            }),
    {
        let ghost cs = ast.children@;
        // Phase one: the resolver tables.
        let mut type_aliases: Vec<TypeAlias> = Vec::new();
        let mut semantic_meanings: Vec<MeaningEntry> = Vec::new();
        let mut type_alias_map: Vec<(String, String)> = Vec::new();
        let mut type_meaning_map: Vec<(String, String)> = Vec::new();
        let mut i: usize = 0;
        while i < ast.children.len()
            invariant
                i <= cs.len(),
                alias_views(type_aliases@) == tables_upto(cs, i as int).aliases,
                pair_views(type_alias_map@) == tables_upto(cs, i as int).amap,
                pair_views(type_meaning_map@) == tables_upto(cs, i as int).mmap,
                entry_views(semantic_meanings@) == tables_upto(cs, i as int).entries,
                forall|k: int|
                    0 <= k < i && (#[trigger] cs[k]).node_type == AstNodeType::TypeDecl ==> decl_ok(
                        cs[k],
                    ),
            decreases cs.len() - i,
        {
            let child = &ast.children[i];
            if child.node_type == AstNodeType::TypeDecl {
                match self.process_type_decl_node(
                    child,
                    &mut type_aliases,
                    &mut semantic_meanings,
                    &mut type_alias_map,
                    &mut type_meaning_map,
                ) {
                    Ok(_) => (),
                    Err(e) => {
                        proof {
                            assert(!decl_ok(cs[i as int]));
                            assert(!gen_ok(*ast));
                        }
                        return Err(e);
                    },
                }
            }
            i += 1;
        }
        proof {
            assert(cs.subrange(0, cs.len() as int) =~= cs);
        }
        let ghost t = tables_upto(cs, cs.len() as int);
        // Phase two: emit aliases, functions and methods, dispatchers and
        // the runtime support.
        let mut out = String::new();
        let mut a: usize = 0;
        while a < type_aliases.len()
            invariant
                a <= type_aliases@.len(),
                alias_views(type_aliases@) == t.aliases,
                forall|j: int|
                    0 <= j < a ==> crate::strutil::spec_contains(
                        out@,
                        alias_line((#[trigger] t.aliases[j]).0, t.aliases[j].1),
                    ),
            decreases type_aliases@.len() - a,
        {
            let mut line = String::new();
            line.append("pub type ");
            line.append(type_aliases[a].name.as_str());
            line.append(" = ");
            line.append(type_aliases[a].base_type.as_str());
            line.append(";\n");
            proof {
                assert(line@ == alias_line(t.aliases[a as int].0, t.aliases[a as int].1));
            }
            let ghost o0 = out@;
            out.append(line.as_str());
            proof {
                lemma_contains_here(o0, line@);
                assert forall|j: int| 0 <= j < a implies crate::strutil::spec_contains(
                    out@,
                    alias_line((#[trigger] t.aliases[j]).0, t.aliases[j].1),
                ) by {
                    lemma_contains_extend(o0, line@, alias_line(t.aliases[j].0, t.aliases[j].1));
                }
            }
            a += 1;
        }
        let ghost o1 = out@;
        out.append("\n");
        proof {
            lemma_preserve_claims(o1, "\n"@, cs, t, 0);
        }
        let mut i2: usize = 0;
        while i2 < ast.children.len()
            invariant
                i2 <= cs.len(),
                pair_views(type_alias_map@) == t.amap,
                pair_views(type_meaning_map@) == t.mmap,
                entry_views(semantic_meanings@) == t.entries,
                forall|j: int|
                    0 <= j < t.aliases.len() ==> crate::strutil::spec_contains(
                        out@,
                        alias_line((#[trigger] t.aliases[j]).0, t.aliases[j].1),
                    ),
                forall|k: int|
                    0 <= k < i2 && (#[trigger] cs[k]).node_type == AstNodeType::FunctionDecl
                        ==> crate::strutil::spec_contains(out@, sig_line(cs[k], t.amap))
                        && crate::strutil::spec_contains(out@, template_stmt(cs[k]))
                        && crate::strutil::spec_contains(out@, meaning_stmt(cs[k], t.amap, t.mmap))
                        && crate::strutil::spec_contains(
                        out@,
                        conv_stmt(ret_base(cs[k].children@, t.amap)),
                    ),
                forall|k: int, pi: int|
                    0 <= k < i2 && (#[trigger] cs[k]).node_type == AstNodeType::FunctionDecl && 0
                        <= pi < all_params(cs[k].children@).len()
                        ==> crate::strutil::spec_contains(
                        out@,
                        subst_stmt_of(#[trigger] all_params(cs[k].children@)[pi], t.amap),
                    ),
                forall|k: int|
                    0 <= k < i2 && (#[trigger] cs[k]).node_type == AstNodeType::FunctionDecl
                        ==> fn_node_ok(cs[k], t.amap),
                forall|k: int, j: int|
                    0 <= k < i2 && cs[k].node_type == AstNodeType::ClassDecl && 0 <= j
                        < cs[k].children@.len() && cs[k].children@[j].node_type
                        == AstNodeType::FunctionDecl ==> fn_node_ok(
                        #[trigger] cs[k].children@[j],
                        t.amap,
                    ),
            decreases cs.len() - i2,
        {
            let child = &ast.children[i2];
            if child.node_type == AstNodeType::FunctionDecl {
                let f = match self.process_function_node(child, &type_alias_map, &type_meaning_map)
                {
                    Ok(f) => f,
                    Err(e) => {
                        proof {
                            assert(!fn_node_ok(cs[i2 as int], t.amap));
                            assert(!gen_ok(*ast));
                        }
                        return Err(e);
                    },
                };
                proof {
                    lemma_params_sig_agree(all_params(cs[i2 as int].children@), f.params@, t.amap);
                    assert(sig_line_fp(f) == sig_line(cs[i2 as int], t.amap));
                }
                let ftext = emit_function(&f);
                let ghost o2 = out@;
                out.append(ftext.as_str());
                proof {
                    lemma_preserve_claims(o2, ftext@, cs, t, i2 as int);
                    lemma_contains_shift(o2, ftext@, sig_line(cs[i2 as int], t.amap));
                    lemma_contains_shift(o2, ftext@, template_stmt(cs[i2 as int]));
                    lemma_contains_shift(o2, ftext@, meaning_stmt(cs[i2 as int], t.amap, t.mmap));
                    lemma_contains_shift(
                        o2,
                        ftext@,
                        conv_stmt(ret_base(cs[i2 as int].children@, t.amap)),
                    );
                    assert forall|pi: int|
                        0 <= pi < all_params(
                            cs[i2 as int].children@,
                        ).len() implies crate::strutil::spec_contains(
                        out@,
                        subst_stmt_of(#[trigger] all_params(cs[i2 as int].children@)[pi], t.amap),
                    ) by {
                        assert(subst_stmt(f.params@[pi].name@) == subst_stmt_of(
                            all_params(cs[i2 as int].children@)[pi],
                            t.amap,
                        ));
                        lemma_contains_shift(o2, ftext@, subst_stmt(f.params@[pi].name@));
                    }
                }
            } else if child.node_type == AstNodeType::ClassDecl {
                let mut j: usize = 0;
                while j < child.children.len()
                    invariant
                        j <= cs[i2 as int].children@.len(),
                        pair_views(type_alias_map@) == t.amap,
                        pair_views(type_meaning_map@) == t.mmap,
                        forall|j2: int|
                            0 <= j2 < t.aliases.len() ==> crate::strutil::spec_contains(
                                out@,
                                alias_line((#[trigger] t.aliases[j2]).0, t.aliases[j2].1),
                            ),
                        forall|k: int|
                            0 <= k < i2 && (#[trigger] cs[k]).node_type
                                == AstNodeType::FunctionDecl ==> crate::strutil::spec_contains(
                                out@,
                                sig_line(cs[k], t.amap),
                            ) && crate::strutil::spec_contains(out@, template_stmt(cs[k]))
                                && crate::strutil::spec_contains(
                                out@,
                                meaning_stmt(cs[k], t.amap, t.mmap),
                            ) && crate::strutil::spec_contains(
                                out@,
                                conv_stmt(ret_base(cs[k].children@, t.amap)),
                            ),
                        forall|k: int, pi: int|
                            0 <= k < i2 && (#[trigger] cs[k]).node_type
                                == AstNodeType::FunctionDecl && 0 <= pi < all_params(
                                cs[k].children@,
                            ).len() ==> crate::strutil::spec_contains(
                                out@,
                                subst_stmt_of(
                                    #[trigger] all_params(cs[k].children@)[pi],
                                    t.amap,
                                ),
                            ),
                        forall|b: int|
                            0 <= b < j && cs[i2 as int].children@[b].node_type
                                == AstNodeType::FunctionDecl ==> fn_node_ok(
                                #[trigger] cs[i2 as int].children@[b],
                                t.amap,
                            ),
                    decreases cs[i2 as int].children@.len() - j,
                {
                    let member = &child.children[j];
                    if member.node_type == AstNodeType::FunctionDecl {
                        let f = match self.process_function_node(
                            member,
                            &type_alias_map,
                            &type_meaning_map,
                        ) {
                            Ok(f) => f,
                            Err(e) => {
                                proof {
                                    assert(!fn_node_ok(cs[i2 as int].children@[j as int], t.amap));
                                    assert(!gen_ok(*ast));
                                }
                                return Err(e);
                            },
                        };
                        let ftext = emit_function(&f);
                        let ghost o3 = out@;
                        out.append(ftext.as_str());
                        proof {
                            lemma_preserve_claims(o3, ftext@, cs, t, i2 as int);
                        }
                    }
                    j += 1;
                }
            }
            i2 += 1;
        }
        // Phase three: one extraction function per distinct meaning.
        let mut e: usize = 0;
        while e < semantic_meanings.len()
            invariant
                e <= semantic_meanings@.len(),
                entry_views(semantic_meanings@) == t.entries,
                pair_views(type_alias_map@) == t.amap,
                pair_views(type_meaning_map@) == t.mmap,
                forall|j: int|
                    0 <= j < t.aliases.len() ==> crate::strutil::spec_contains(
                        out@,
                        alias_line((#[trigger] t.aliases[j]).0, t.aliases[j].1),
                    ),
                forall|k: int|
                    0 <= k < cs.len() && (#[trigger] cs[k]).node_type == AstNodeType::FunctionDecl
                        ==> crate::strutil::spec_contains(out@, sig_line(cs[k], t.amap))
                        && crate::strutil::spec_contains(out@, template_stmt(cs[k]))
                        && crate::strutil::spec_contains(out@, meaning_stmt(cs[k], t.amap, t.mmap))
                        && crate::strutil::spec_contains(
                        out@,
                        conv_stmt(ret_base(cs[k].children@, t.amap)),
                    ),
                forall|k: int, pi: int|
                    0 <= k < cs.len() && (#[trigger] cs[k]).node_type == AstNodeType::FunctionDecl
                        && 0 <= pi < all_params(cs[k].children@).len()
                        ==> crate::strutil::spec_contains(
                        out@,
                        subst_stmt_of(#[trigger] all_params(cs[k].children@)[pi], t.amap),
                    ),
                forall|j: int|
                    0 <= j < e ==> crate::strutil::spec_contains(
                        out@,
                        extractor_text(#[trigger] t.entries[j]),
                    ),
            decreases semantic_meanings@.len() - e,
        {
            let ex = emit_extractor(&semantic_meanings[e]);
            let ghost o5 = out@;
            out.append(ex.as_str());
            proof {
                lemma_preserve_claims(o5, ex@, cs, t, cs.len() as int);
                lemma_contains_here(o5, ex@);
                assert forall|j: int| 0 <= j < e implies crate::strutil::spec_contains(
                    out@,
                    extractor_text(#[trigger] t.entries[j]),
                ) by {
                    lemma_contains_extend(o5, ex@, extractor_text(t.entries[j]));
                }
            }
            e += 1;
        }
        // Phase four: one decode dispatcher per primitive.
        proof {
            reveal_strlit("i32");
            reveal_strlit("f64");
            reveal_strlit("bool");
            reveal_strlit("String");
            assert("i32"@[0] == 'i' && "f64"@[0] == 'f' && "bool"@[0] == 'b' && "String"@[0]
                == 'S');
        }
        let d_int = emit_one_dispatcher(
            &semantic_meanings,
            "pub fn parse_integer_semantic(content: &str, meaning: Option<&str>) -> i32 {\n    if let Ok(v) = content.trim().parse::<i32>() {\n        return v;\n    }\n    match meaning {\n",
            "i32",
            "_value",
            "        _ => extract_generic_number(content),\n    }\n}\n\n",
        );
        let d_float = emit_one_dispatcher(
            &semantic_meanings,
            "pub fn parse_float_semantic(content: &str, meaning: Option<&str>) -> f64 {\n    if let Ok(v) = content.trim().parse::<f64>() {\n        return v;\n    }\n    match meaning {\n",
            "f64",
            "_value",
            "        _ => extract_generic_float(content),\n    }\n}\n\n",
        );
        let d_bool = emit_one_dispatcher(
            &semantic_meanings,
            "pub fn parse_boolean_semantic(content: &str, meaning: Option<&str>) -> bool {\n    if let Ok(v) = content.trim().parse::<bool>() {\n        return v;\n    }\n    match meaning {\n",
            "bool",
            "_boolean",
            "        _ => extract_generic_boolean(content),\n    }\n}\n\n",
        );
        let d_string = emit_one_dispatcher(
            &semantic_meanings,
            "pub fn parse_string_semantic(content: &str, meaning: Option<&str>) -> String {\n    match meaning {\n",
            "String",
            "_string",
            "        _ => content.trim().to_string(),\n    }\n}\n\n",
        );
        let ghost da = out@;
        out.append(d_int.as_str());
        proof {
            lemma_preserve_claims(da, d_int@, cs, t, cs.len() as int);
            lemma_contains_shift(da, d_int@, int_dispatcher_head());
            lemma_contains_shift(da, d_int@, int_dispatcher_foot());
            lemma_keep_entry_claims(da, d_int@, t);
            assert forall|j: int|
                0 <= j < t.entries.len() && (#[trigger] t.entries[j]).1
                    == "i32"@ implies crate::strutil::spec_contains(
                out@,
                dispatch_arm(t.entries[j]),
            ) by {
                lemma_contains_shift(da, d_int@, dispatch_arm(t.entries[j]));
            }
        }
        let ghost db = out@;
        out.append(d_float.as_str());
        proof {
            lemma_preserve_claims(db, d_float@, cs, t, cs.len() as int);
            lemma_contains_extend(db, d_float@, int_dispatcher_head());
            lemma_contains_extend(db, d_float@, int_dispatcher_foot());
            lemma_contains_shift(db, d_float@, float_dispatcher_head());
            lemma_contains_shift(db, d_float@, float_dispatcher_foot());
            lemma_keep_entry_claims(db, d_float@, t);
            lemma_keep_arms_of_base(db, d_float@, t, "i32"@);
            assert forall|j: int|
                0 <= j < t.entries.len() && (#[trigger] t.entries[j]).1
                    == "f64"@ implies crate::strutil::spec_contains(
                out@,
                dispatch_arm(t.entries[j]),
            ) by {
                lemma_contains_shift(db, d_float@, dispatch_arm(t.entries[j]));
            }
        }
        let ghost dc = out@;
        out.append(d_bool.as_str());
        proof {
            lemma_preserve_claims(dc, d_bool@, cs, t, cs.len() as int);
            lemma_contains_extend(dc, d_bool@, int_dispatcher_head());
            lemma_contains_extend(dc, d_bool@, int_dispatcher_foot());
            lemma_contains_extend(dc, d_bool@, float_dispatcher_head());
            lemma_contains_extend(dc, d_bool@, float_dispatcher_foot());
            lemma_contains_shift(dc, d_bool@, bool_dispatcher_head());
            lemma_contains_shift(dc, d_bool@, bool_dispatcher_foot());
            lemma_keep_entry_claims(dc, d_bool@, t);
            lemma_keep_arms_of_base(dc, d_bool@, t, "i32"@);
            lemma_keep_arms_of_base(dc, d_bool@, t, "f64"@);
            assert forall|j: int|
                0 <= j < t.entries.len() && (#[trigger] t.entries[j]).1
                    == "bool"@ implies crate::strutil::spec_contains(
                out@,
                dispatch_arm(t.entries[j]),
            ) by {
                lemma_contains_shift(dc, d_bool@, dispatch_arm(t.entries[j]));
            }
        }
        let ghost dd = out@;
        out.append(d_string.as_str());
        proof {
            lemma_preserve_claims(dd, d_string@, cs, t, cs.len() as int);
            lemma_contains_extend(dd, d_string@, int_dispatcher_head());
            lemma_contains_extend(dd, d_string@, int_dispatcher_foot());
            lemma_contains_extend(dd, d_string@, float_dispatcher_head());
            lemma_contains_extend(dd, d_string@, float_dispatcher_foot());
            lemma_contains_extend(dd, d_string@, bool_dispatcher_head());
            lemma_contains_extend(dd, d_string@, bool_dispatcher_foot());
            lemma_contains_shift(dd, d_string@, string_dispatcher_head());
            lemma_contains_shift(dd, d_string@, string_dispatcher_foot());
            lemma_keep_entry_claims(dd, d_string@, t);
            lemma_keep_arms_of_base(dd, d_string@, t, "i32"@);
            lemma_keep_arms_of_base(dd, d_string@, t, "f64"@);
            lemma_keep_arms_of_base(dd, d_string@, t, "bool"@);
            assert forall|j: int|
                0 <= j < t.entries.len() && (#[trigger] t.entries[j]).1
                    == "String"@ implies crate::strutil::spec_contains(
                out@,
                dispatch_arm(t.entries[j]),
            ) by {
                lemma_contains_shift(dd, d_string@, dispatch_arm(t.entries[j]));
            }
        }
        // The fixed runtime support surface.
        let tail = emit_runtime_tail(as_lib);
        let ghost o4 = out@;
        out.append(tail.as_str());
        proof {
            lemma_preserve_claims(o4, tail@, cs, t, cs.len() as int);
            lemma_keep_entry_claims(o4, tail@, t);
            lemma_contains_extend(o4, tail@, int_dispatcher_head());
            lemma_contains_extend(o4, tail@, int_dispatcher_foot());
            lemma_contains_extend(o4, tail@, float_dispatcher_head());
            lemma_contains_extend(o4, tail@, float_dispatcher_foot());
            lemma_contains_extend(o4, tail@, bool_dispatcher_head());
            lemma_contains_extend(o4, tail@, bool_dispatcher_foot());
            lemma_contains_extend(o4, tail@, string_dispatcher_head());
            lemma_contains_extend(o4, tail@, string_dispatcher_foot());
            lemma_keep_arms_of_base(o4, tail@, t, "i32"@);
            lemma_keep_arms_of_base(o4, tail@, t, "f64"@);
            lemma_keep_arms_of_base(o4, tail@, t, "bool"@);
            lemma_keep_arms_of_base(o4, tail@, t, "String"@);
        }
        Ok(out)
    }
}

// ---------------------------------------------------------------------------
// What a function node means to the generator
// ---------------------------------------------------------------------------

/// The parameter nodes of every parameter list child, in order.
pub open spec fn all_params(cs: Seq<AstNode>) -> Seq<AstNode>
    decreases cs.len(),
{
    if cs.len() == 0 {
        Seq::empty()
    } else {
        all_params(cs.drop_last()) + (if cs.last().node_type == AstNodeType::ParamList {
            cs.last().children@
        } else {
            Seq::empty()
        })
    }
}

/// The return type node: the last type child, as a later annotation
/// overrides an earlier one.
pub open spec fn last_type_child(cs: Seq<AstNode>) -> Option<AstNode>
    decreases cs.len(),
{
    if cs.len() == 0 {
        None
    } else if cs.last().node_type == AstNodeType::BasicType || cs.last().node_type
        == AstNodeType::MeaningType {
        Some(cs.last())
    } else {
        last_type_child(cs.drop_last())
    }
}

/// The type written in the emitted signature: the alias name where the
/// alias table knows it, else the mapped primitive; unit without a return
/// type.
pub open spec fn ret_sig(cs: Seq<AstNode>, amap: Seq<(Seq<char>, Seq<char>)>) -> Seq<char> {
    match last_type_child(cs) {
        None => "()"@,
        Some(t) => {
            let a = type_info_alias(t);
            match lookup_sc(amap, a) {
                Some(_) => a,
                None => spec_map_prim(a),
            }
        },
    }
}

/// The primitive the return value decodes at.
pub open spec fn ret_base(cs: Seq<AstNode>, amap: Seq<(Seq<char>, Seq<char>)>) -> Seq<char> {
    match last_type_child(cs) {
        None => "()"@,
        Some(t) => {
            let a = type_info_alias(t);
            match lookup_sc(amap, a) {
                Some(b) => b,
                None => spec_map_prim(a),
            }
        },
    }
}

/// The effective meaning: the return type's own annotation when it has
/// one, else the meaning inherited from the alias it names, else none.
pub open spec fn effective_meaning(
    cs: Seq<AstNode>,
    amap: Seq<(Seq<char>, Seq<char>)>,
    mmap: Seq<(Seq<char>, Seq<char>)>,
) -> Option<Seq<char>> {
    match last_type_child(cs) {
        None => None,
        Some(t) => match type_info_meaning(t) {
            Some(m) => Some(m),
            None => lookup_sc(mmap, ret_sig(cs, amap)),
        },
    }
}

/// The first prompt statement of a statement list, with its template.
pub open spec fn block_prompt(bs: Seq<AstNode>) -> Option<Seq<char>>
    decreases bs.len(),
{
    if bs.len() == 0 {
        None
    } else if bs[0].node_type == AstNodeType::PromptBlock && bs[0].str_prop("template"@)
        is Some {
        bs[0].str_prop("template"@)
    } else {
        block_prompt(bs.drop_first())
    }
}

/// The function's prompt template: the first prompt of the last body child
/// that has one.
pub open spec fn func_prompt(cs: Seq<AstNode>) -> Option<Seq<char>>
    decreases cs.len(),
{
    if cs.len() == 0 {
        None
    } else {
        let l = cs.last();
        if (l.node_type == AstNodeType::FunctionBody || l.node_type == AstNodeType::Block)
            && block_prompt(l.children@) is Some {
            block_prompt(l.children@)
        } else {
            func_prompt(cs.drop_last())
        }
    }
}

/// What one parameter node contributes: its name, its signature type and
/// its sample value; nothing when the node is malformed or its type
/// resolves to no primitive.
pub open spec fn param_view_of(p: AstNode, amap: Seq<(Seq<char>, Seq<char>)>) -> Option<
    (Seq<char>, Seq<char>, Seq<char>),
> {
    match p.str_prop("name"@) {
        None => None,
        Some(pn) => if p.children@.len() < 1 {
            None
        } else {
            let a = type_info_alias(p.children@[0]);
            let rust_type = match lookup_sc(amap, a) {
                Some(_) => a,
                None => spec_map_prim(a),
            };
            let resolved = match lookup_sc(amap, a) {
                Some(b) => b,
                None => spec_map_prim(a),
            };
            if is_primitive(resolved) {
                Some((pn, rust_type, spec_test_value(resolved)))
            } else {
                None
            }
        },
    }
}

/// A function node the generator accepts: named, with a prompt in its
/// body, every parameter well-formed at a primitive type.
pub open spec fn fn_node_ok(n: AstNode, amap: Seq<(Seq<char>, Seq<char>)>) -> bool {
    &&& n.str_prop("name"@) is Some
    &&& func_prompt(n.children@) is Some
    &&& forall|i: int, j: int|
        0 <= i < n.children@.len() && n.children@[i].node_type == AstNodeType::ParamList && 0 <= j
            < n.children@[i].children@.len() ==> param_view_of(
            #[trigger] n.children@[i].children@[j],
            amap,
        ) is Some
}

// ---------------------------------------------------------------------------
// The emitted text: the pieces the artifact is promised to contain
// ---------------------------------------------------------------------------

/// The emitted alias declaration.
pub open spec fn alias_line(n: Seq<char>, b: Seq<char>) -> Seq<char> {
    "pub type "@ + n + " = "@ + b + ";\n"@
}

/// The parameter segment of an emitted signature, from the parameter
/// nodes.
pub open spec fn params_sig_text(ps: Seq<AstNode>, amap: Seq<(Seq<char>, Seq<char>)>) -> Seq<char>
    decreases ps.len(),
{
    if ps.len() == 0 {
        Seq::empty()
    } else {
        params_sig_text(ps.drop_last(), amap) + (match param_view_of(ps.last(), amap) {
            Some(pv) => ", "@ + pv.0 + ": "@ + pv.1,
            None => Seq::empty(),
        })
    }
}

/// The parameter segment, from resolved parameter records.
pub open spec fn params_sig_fp(ps: Seq<FunctionParam>) -> Seq<char>
    decreases ps.len(),
{
    if ps.len() == 0 {
        Seq::empty()
    } else {
        params_sig_fp(ps.drop_last()) + ", "@ + ps.last().name@ + ": "@ + ps.last().rust_type@
    }
}

/// The two parameter views agree, so the two segment forms are the same
/// text.
pub proof fn lemma_params_sig_agree(
    ps: Seq<AstNode>,
    fps: Seq<FunctionParam>,
    amap: Seq<(Seq<char>, Seq<char>)>,
)
    requires
        fps.len() == ps.len(),
        forall|i: int|
            0 <= i < ps.len() ==> param_view_of(#[trigger] ps[i], amap) == Some(
                (fps[i].name@, fps[i].rust_type@, fps[i].test_value@),
            ),
    ensures
        params_sig_fp(fps) == params_sig_text(ps, amap),
    decreases ps.len(),
{
    if ps.len() > 0 {
        assert(forall|i: int|
            0 <= i < ps.len() - 1 ==> #[trigger] ps.drop_last()[i] == ps[i]
                && fps.drop_last()[i] == fps[i]);
        lemma_params_sig_agree(ps.drop_last(), fps.drop_last(), amap);
    }
}

pub open spec fn sig_line_fp(f: Function) -> Seq<char> {
    "pub fn "@ + f.name@ + "(llm: &LlmClient"@ + params_sig_fp(f.params@) + ") -> "@
        + f.return_type@ + " {\n"@
}

/// The emitted signature of a function node.
pub open spec fn sig_line(n: AstNode, amap: Seq<(Seq<char>, Seq<char>)>) -> Seq<char> {
    "pub fn "@ + name_of(n) + "(llm: &LlmClient"@ + params_sig_text(all_params(n.children@), amap)
        + ") -> "@ + ret_sig(n.children@, amap) + " {\n"@
}

pub open spec fn template_stmt_t(t: Seq<char>) -> Seq<char> {
    "    let mut template = \""@ + t + "\".to_string();\n"@
}

pub open spec fn prompt_of(n: AstNode) -> Seq<char> {
    match func_prompt(n.children@) {
        Some(t) => t,
        None => Seq::empty(),
    }
}

/// The emitted statement that binds the prompt template.
pub open spec fn template_stmt(n: AstNode) -> Seq<char> {
    template_stmt_t(prompt_of(n))
}

pub open spec fn meaning_stmt_m(m: Option<Seq<char>>) -> Seq<char> {
    match m {
        Some(t) => "    let meaning = Some(\""@ + t + "\");\n"@,
        None => "    let meaning: Option<&str> = None;\n"@,
    }
}

/// The emitted statement that binds the effective meaning.
pub open spec fn meaning_stmt(
    n: AstNode,
    amap: Seq<(Seq<char>, Seq<char>)>,
    mmap: Seq<(Seq<char>, Seq<char>)>,
) -> Seq<char> {
    meaning_stmt_m(effective_meaning(n.children@, amap, mmap))
}

/// The conversion method a primitive decodes through.
pub open spec fn conv_name(b: Seq<char>) -> Seq<char> {
    if b == "i32"@ {
        "into_i32"@
    } else if b == "f64"@ {
        "into_f64"@
    } else if b == "bool"@ {
        "into_bool"@
    } else {
        "into_string"@
    }
}

/// The emitted conversion of the decoded value to the declared type.
pub open spec fn conv_stmt(b: Seq<char>) -> Seq<char> {
    "    result."@ + conv_name(b) + "()\n"@
}

/// The emitted statement that substitutes one parameter's value for its
/// placeholder in the template.
pub open spec fn subst_stmt(n: Seq<char>) -> Seq<char> {
    "    template = template.replace(\"{"@ + n + "}\", &"@ + n + ".to_string());\n"@
}

/// The substitution statement a parameter node gets, through its resolved
/// view.
pub open spec fn subst_stmt_of(p: AstNode, amap: Seq<(Seq<char>, Seq<char>)>) -> Seq<char> {
    match param_view_of(p, amap) {
        Some(pv) => subst_stmt(pv.0),
        None => Seq::empty(),
    }
}

/// The name suffix of a synthesized extraction function, by primitive.
pub open spec fn suffix_for(b: Seq<char>) -> Seq<char> {
    if b == "i32"@ || b == "f64"@ {
        "_value"@
    } else if b == "bool"@ {
        "_boolean"@
    } else {
        "_string"@
    }
}

/// The head of the extraction function synthesized for one meaning entry:
/// named from the normalized identifier, suffixed by the primitive kind.
pub open spec fn extractor_head(e: (Seq<char>, Seq<char>, Seq<char>)) -> Seq<char> {
    "pub fn extract_"@ + e.2 + suffix_for(e.1) + "(content: &str)"@
}

/// The emitted body of an integer extraction function, by strategy.
pub open spec fn int_body_text(st: IntStrategy) -> Seq<char> {
    match st {
        IntStrategy::FirstToken => " -> i32 {\n    extract_generic_number(content)\n}\n\n"@,
        IntStrategy::AgeScan => " -> i32 {\n    vibe_digit_scan(content, 1, 149)\n}\n\n"@,
        IntStrategy::YearScan => " -> i32 {\n    vibe_digit_scan(content, 1000, 2100)\n}\n\n"@,
        IntStrategy::Population => " -> i32 {\n    vibe_population(content)\n}\n\n"@,
        IntStrategy::Generic => " -> i32 {\n    extract_generic_number(content)\n}\n\n"@,
    }
}

/// The emitted body of a floating-point extraction function, by strategy.
pub open spec fn float_body_text(st: FloatStrategy) -> Seq<char> {
    match st {
        FloatStrategy::StripScan => " -> f64 {\n    vibe_strip_float(content)\n}\n\n"@,
        FloatStrategy::Percentage => " -> f64 {\n    vibe_percent(content)\n}\n\n"@,
        FloatStrategy::Generic => " -> f64 {\n    extract_generic_float(content)\n}\n\n"@,
    }
}

/// The emitted body of a boolean extraction function, by strategy: each
/// carries its own positive-word list.
pub open spec fn bool_body_text(st: BoolStrategy) -> Seq<char> {
    match st {
        BoolStrategy::Availability => " -> bool {\n    vibe_contains_any(content, &[\"yes\", \"available\", \"in stock\"])\n}\n\n"@,
        BoolStrategy::Recommendation => " -> bool {\n    vibe_contains_any(content, &[\"yes\", \"recommend\"])\n}\n\n"@,
        BoolStrategy::Sentiment => " -> bool {\n    vibe_contains_any(content, &[\"positive\", \"good\", \"great\"])\n}\n\n"@,
        BoolStrategy::Generic => " -> bool {\n    extract_generic_boolean(content)\n}\n\n"@,
    }
}

/// The emitted body of a text extraction function, by strategy.
pub open spec fn text_body_text(st: TextStrategy) -> Seq<char> {
    match st {
        TextStrategy::Field => " -> String {\n    vibe_field(content)\n}\n\n"@,
        TextStrategy::FullText => " -> String {\n    content.trim().to_string()\n}\n\n"@,
        TextStrategy::Summary => " -> String {\n    vibe_summary(content, 100)\n}\n\n"@,
        TextStrategy::Historical => " -> String {\n    vibe_summary(content, 200)\n}\n\n"@,
        TextStrategy::Generic => " -> String {\n    content.trim().to_string()\n}\n\n"@,
    }
}

/// The body the keyword rules pick for one meaning entry, first match
/// wins, per primitive.
pub open spec fn extractor_body(e: (Seq<char>, Seq<char>, Seq<char>)) -> Seq<char> {
    if e.1 == "i32"@ {
        int_body_text(spec_int_strategy(e.0))
    } else if e.1 == "f64"@ {
        float_body_text(spec_float_strategy(e.0))
    } else if e.1 == "bool"@ {
        bool_body_text(spec_bool_strategy(e.0))
    } else {
        text_body_text(spec_text_strategy(e.0))
    }
}

/// The whole synthesized extraction function of one meaning entry: its
/// head and its strategy-picked body.
pub open spec fn extractor_text(e: (Seq<char>, Seq<char>, Seq<char>)) -> Seq<char> {
    extractor_head(e) + extractor_body(e)
}

/// The fixed head of the integer decode dispatcher: a direct parse first.
pub open spec fn int_dispatcher_head() -> Seq<char> {
    "pub fn parse_integer_semantic(content: &str, meaning: Option<&str>) -> i32 {\n    if let Ok(v) = content.trim().parse::<i32>() {\n        return v;\n    }\n    match meaning {\n"@
}

/// The fixed head of the floating-point decode dispatcher.
pub open spec fn float_dispatcher_head() -> Seq<char> {
    "pub fn parse_float_semantic(content: &str, meaning: Option<&str>) -> f64 {\n    if let Ok(v) = content.trim().parse::<f64>() {\n        return v;\n    }\n    match meaning {\n"@
}

/// The fixed head of the boolean decode dispatcher.
pub open spec fn bool_dispatcher_head() -> Seq<char> {
    "pub fn parse_boolean_semantic(content: &str, meaning: Option<&str>) -> bool {\n    if let Ok(v) = content.trim().parse::<bool>() {\n        return v;\n    }\n    match meaning {\n"@
}

/// The fixed head of the text decode dispatcher.
pub open spec fn string_dispatcher_head() -> Seq<char> {
    "pub fn parse_string_semantic(content: &str, meaning: Option<&str>) -> String {\n    match meaning {\n"@
}

/// The fixed tail of each dispatcher: the generic fallback arm.
pub open spec fn int_dispatcher_foot() -> Seq<char> {
    "        _ => extract_generic_number(content),\n    }\n}\n\n"@
}

pub open spec fn float_dispatcher_foot() -> Seq<char> {
    "        _ => extract_generic_float(content),\n    }\n}\n\n"@
}

pub open spec fn bool_dispatcher_foot() -> Seq<char> {
    "        _ => extract_generic_boolean(content),\n    }\n}\n\n"@
}

pub open spec fn string_dispatcher_foot() -> Seq<char> {
    "        _ => content.trim().to_string(),\n    }\n}\n\n"@
}

/// The dispatch arm of one meaning entry: its meaning text routed to its
/// extraction function.
pub open spec fn dispatch_arm(e: (Seq<char>, Seq<char>, Seq<char>)) -> Seq<char> {
    "        Some(\""@ + e.0 + "\") => extract_"@ + e.2 + suffix_for(e.1) + "(content),\n"@
}

/// Text that holds a piece keeps holding it when more text follows.
pub proof fn lemma_contains_extend(a: Seq<char>, b: Seq<char>, p: Seq<char>)
    requires
        crate::strutil::spec_contains(a, p),
    ensures
        crate::strutil::spec_contains(a + b, p),
{
    let i = choose|i: int|
        0 <= i && i + p.len() <= a.len() && #[trigger] a.subrange(i, i + p.len() as int) == p;
    assert((a + b).subrange(i, i + p.len() as int) =~= a.subrange(i, i + p.len() as int));
}

/// Text holds what was just appended to it.
pub proof fn lemma_contains_here(a: Seq<char>, p: Seq<char>)
    ensures
        crate::strutil::spec_contains(a + p, p),
{
    assert((a + p).subrange(a.len() as int, a.len() + p.len() as int) =~= p);
}

/// Appended text keeps holding its pieces.
pub proof fn lemma_contains_shift(a: Seq<char>, b: Seq<char>, p: Seq<char>)
    requires
        crate::strutil::spec_contains(b, p),
    ensures
        crate::strutil::spec_contains(a + b, p),
{
    let i = choose|i: int|
        0 <= i && i + p.len() <= b.len() && #[trigger] b.subrange(i, i + p.len() as int) == p;
    assert((a + b).subrange(a.len() + i, a.len() + i + p.len() as int) =~= b.subrange(
        i,
        i + p.len() as int,
    ));
}

/// Every declaration is one the generator accepts: type declarations are
/// named and complete, and every function, top level or inside a class,
/// passes `fn_node_ok` under the finished alias table.
pub open spec fn gen_ok(ast: AstNode) -> bool {
    let cs = ast.children@;
    let amap = tables_upto(cs, cs.len() as int).amap;
    &&& forall|k: int|
        0 <= k < cs.len() && cs[k].node_type == AstNodeType::TypeDecl ==> decl_ok(#[trigger] cs[k])
    &&& forall|k: int|
        0 <= k < cs.len() && cs[k].node_type == AstNodeType::FunctionDecl ==> fn_node_ok(
            #[trigger] cs[k],
            amap,
        )
    &&& forall|k: int, j: int|
        0 <= k < cs.len() && cs[k].node_type == AstNodeType::ClassDecl && 0 <= j
            < cs[k].children@.len() && cs[k].children@[j].node_type == AstNodeType::FunctionDecl
            ==> fn_node_ok(#[trigger] cs[k].children@[j], amap)
}

// ---------------------------------------------------------------------------
// Laws of resolution and inheritance
// ---------------------------------------------------------------------------

/// What a type name resolves to: the table's answer where the name is an
/// alias, else the primitive mapping.
pub open spec fn resolve_name(amap: Seq<(Seq<char>, Seq<char>)>, name: Seq<char>) -> Seq<char> {
    match lookup_sc(amap, name) {
        Some(b) => b,
        None => spec_map_prim(name),
    }
}

proof fn lemma_lookup_sc_some_in(m: Seq<(Seq<char>, Seq<char>)>, k: Seq<char>)
    requires
        lookup_sc(m, k) is Some,
    ensures
        exists|j: int|
            0 <= j < m.len() && (#[trigger] m[j]).0 == k && lookup_sc(m, k) == Some(m[j].1),
    decreases m.len(),
{
    if m.len() > 0 && m[0].0 != k {
        lemma_lookup_sc_some_in(m.drop_first(), k);
        let j = choose|j: int|
            0 <= j < m.drop_first().len() && (#[trigger] m.drop_first()[j]).0 == k && lookup_sc(
                m.drop_first(),
                k,
            ) == Some(m.drop_first()[j].1);
        assert(m[j + 1].0 == k && lookup_sc(m, k) == Some(m[j + 1].1));
    }
}

proof fn lemma_lookup_sc_none(m: Seq<(Seq<char>, Seq<char>)>, k: Seq<char>)
    requires
        forall|j: int| 0 <= j < m.len() ==> (#[trigger] m[j]).0 != k,
    ensures
        lookup_sc(m, k) is None,
    decreases m.len(),
{
    if m.len() > 0 {
        assert(forall|j: int|
            0 <= j < m.drop_first().len() ==> (#[trigger] m.drop_first()[j]).0 == m[j + 1].0);
        lemma_lookup_sc_none(m.drop_first(), k);
    }
}

/// The target primitive names differ from the source primitive names.
proof fn lemma_primitive_names_distinct()
    ensures
        "i32"@ != "Int"@ && "i32"@ != "Float"@ && "i32"@ != "String"@ && "i32"@ != "Bool"@,
        "f64"@ != "Int"@ && "f64"@ != "Float"@ && "f64"@ != "String"@ && "f64"@ != "Bool"@,
        "bool"@ != "Int"@ && "bool"@ != "Float"@ && "bool"@ != "String"@ && "bool"@ != "Bool"@,
{
    reveal_strlit("Int");
    reveal_strlit("Float");
    reveal_strlit("String");
    reveal_strlit("Bool");
    reveal_strlit("i32");
    reveal_strlit("f64");
    reveal_strlit("bool");
    assert("i32"@[0] == 'i' && "f64"@[0] == 'f' && "bool"@[0] == 'b');
    assert("Int"@[0] == 'I' && "Float"@[0] == 'F' && "String"@[0] == 'S' && "Bool"@[0] == 'B');
}

/// Resolution is idempotent: in a table whose values are primitives and
/// whose keys are not, resolving a resolved name changes nothing, and a
/// resolved name inherits no further meaning from a table keyed by alias
/// names alone.
pub proof fn lemma_resolution_idempotent(
    amap: Seq<(Seq<char>, Seq<char>)>,
    mmap: Seq<(Seq<char>, Seq<char>)>,
    name: Seq<char>,
)
    requires
        forall|j: int| 0 <= j < amap.len() ==> is_primitive((#[trigger] amap[j]).1),
        forall|j: int| 0 <= j < amap.len() ==> !is_primitive((#[trigger] amap[j]).0),
        forall|j: int| 0 <= j < mmap.len() ==> !is_primitive((#[trigger] mmap[j]).0),
    ensures
        resolve_name(amap, resolve_name(amap, name)) == resolve_name(amap, name),
        is_primitive(resolve_name(amap, name)) ==> lookup_sc(mmap, resolve_name(amap, name))
            is None,
{
    reveal_strlit("Int");
    reveal_strlit("Float");
    reveal_strlit("String");
    reveal_strlit("Bool");
    reveal_strlit("i32");
    reveal_strlit("f64");
    reveal_strlit("bool");
    reveal_strlit("()");
    let r = resolve_name(amap, name);
    if lookup_sc(amap, name) is Some {
        lemma_lookup_sc_some_in(amap, name);
        assert(is_primitive(r));
        lemma_lookup_sc_none(amap, r);
        assert(spec_map_prim(r) == r) by {
            lemma_primitive_names_distinct();
        }
    } else {
        if name == "Int"@ || name == "Float"@ || name == "String"@ || name == "Bool"@ {
            assert(is_primitive(r));
            lemma_lookup_sc_none(amap, r);
            assert(spec_map_prim(r) == r) by {
                lemma_primitive_names_distinct();
            }
        } else {
            assert(r == name);
        }
    }
    if is_primitive(resolve_name(amap, name)) {
        lemma_lookup_sc_none(mmap, resolve_name(amap, name));
    }
}

/// Meaning inheritance: a function whose return type carries its own
/// meaning uses it, even when the declared type is an alias with a meaning
/// of its own; one without an explicit meaning inherits the meaning of the
/// alias its signature names, and has none when that alias carries none.
pub proof fn lemma_meaning_inheritance(
    cs: Seq<AstNode>,
    amap: Seq<(Seq<char>, Seq<char>)>,
    mmap: Seq<(Seq<char>, Seq<char>)>,
    t: AstNode,
)
    requires
        last_type_child(cs) == Some(t),
    ensures
        type_info_meaning(t) is Some ==> effective_meaning(cs, amap, mmap) == type_info_meaning(t),
        type_info_meaning(t) is None ==> effective_meaning(cs, amap, mmap) == lookup_sc(
            mmap,
            ret_sig(cs, amap),
        ),
{
}

/// Every promised piece of the artifact stays in place when more text is
/// appended.
proof fn lemma_preserve_claims(
    out0: Seq<char>,
    piece: Seq<char>,
    cs: Seq<AstNode>,
    t: GenTables,
    upto: int,
)
    requires
        forall|j: int|
            0 <= j < t.aliases.len() ==> crate::strutil::spec_contains(
                out0,
                alias_line((#[trigger] t.aliases[j]).0, t.aliases[j].1),
            ),
        forall|k: int|
            0 <= k < upto && (#[trigger] cs[k]).node_type == AstNodeType::FunctionDecl
                ==> crate::strutil::spec_contains(out0, sig_line(cs[k], t.amap))
                && crate::strutil::spec_contains(out0, template_stmt(cs[k]))
                && crate::strutil::spec_contains(out0, meaning_stmt(cs[k], t.amap, t.mmap))
                && crate::strutil::spec_contains(out0, conv_stmt(ret_base(cs[k].children@, t.amap))),
        forall|k: int, i: int|
            0 <= k < upto && (#[trigger] cs[k]).node_type == AstNodeType::FunctionDecl && 0 <= i
                < all_params(cs[k].children@).len() ==> crate::strutil::spec_contains(
                out0,
                subst_stmt_of(#[trigger] all_params(cs[k].children@)[i], t.amap),
            ),
    ensures
        forall|j: int|
            0 <= j < t.aliases.len() ==> crate::strutil::spec_contains(
                out0 + piece,
                alias_line((#[trigger] t.aliases[j]).0, t.aliases[j].1),
            ),
        forall|k: int|
            0 <= k < upto && (#[trigger] cs[k]).node_type == AstNodeType::FunctionDecl
                ==> crate::strutil::spec_contains(out0 + piece, sig_line(cs[k], t.amap))
                && crate::strutil::spec_contains(out0 + piece, template_stmt(cs[k]))
                && crate::strutil::spec_contains(out0 + piece, meaning_stmt(cs[k], t.amap, t.mmap))
                && crate::strutil::spec_contains(
                out0 + piece,
                conv_stmt(ret_base(cs[k].children@, t.amap)),
            ),
        forall|k: int, i: int|
            0 <= k < upto && (#[trigger] cs[k]).node_type == AstNodeType::FunctionDecl && 0 <= i
                < all_params(cs[k].children@).len() ==> crate::strutil::spec_contains(
                out0 + piece,
                subst_stmt_of(#[trigger] all_params(cs[k].children@)[i], t.amap),
            ),
{
    assert forall|j: int| 0 <= j < t.aliases.len() implies crate::strutil::spec_contains(
        out0 + piece,
        alias_line((#[trigger] t.aliases[j]).0, t.aliases[j].1),
    ) by {
        lemma_contains_extend(out0, piece, alias_line(t.aliases[j].0, t.aliases[j].1));
    }
    assert forall|k: int|
        0 <= k < upto && (#[trigger] cs[k]).node_type
            == AstNodeType::FunctionDecl implies crate::strutil::spec_contains(
        out0 + piece,
        sig_line(cs[k], t.amap),
    ) && crate::strutil::spec_contains(out0 + piece, template_stmt(cs[k]))
        && crate::strutil::spec_contains(out0 + piece, meaning_stmt(cs[k], t.amap, t.mmap))
        && crate::strutil::spec_contains(
        out0 + piece,
        conv_stmt(ret_base(cs[k].children@, t.amap)),
    ) by {
        lemma_contains_extend(out0, piece, sig_line(cs[k], t.amap));
        lemma_contains_extend(out0, piece, template_stmt(cs[k]));
        lemma_contains_extend(out0, piece, meaning_stmt(cs[k], t.amap, t.mmap));
        lemma_contains_extend(out0, piece, conv_stmt(ret_base(cs[k].children@, t.amap)));
    }
    assert forall|k: int, i: int|
        0 <= k < upto && (#[trigger] cs[k]).node_type == AstNodeType::FunctionDecl && 0 <= i
            < all_params(cs[k].children@).len() implies crate::strutil::spec_contains(
        out0 + piece,
        subst_stmt_of(#[trigger] all_params(cs[k].children@)[i], t.amap),
    ) by {
        lemma_contains_extend(out0, piece, subst_stmt_of(all_params(cs[k].children@)[i], t.amap));
    }
}

/// Emits one resolved function: the signature, the template binding, one
/// substitution per parameter, the meaning binding, the backend call and
/// the conversion.
#[verifier::loop_isolation(false)]
fn emit_function(f: &Function) -> (r: String)
    ensures
        crate::strutil::spec_contains(r@, sig_line_fp(*f)),
        crate::strutil::spec_contains(r@, template_stmt_t(f.prompt_template@)),
        forall|i: int|
            0 <= i < f.params@.len() ==> crate::strutil::spec_contains(
                r@,
                subst_stmt(#[trigger] f.params@[i].name@),
            ),
        crate::strutil::spec_contains(
            r@,
            meaning_stmt_m(
                match f.semantic_meaning {
                    Some(m) => Some(m@),
                    None => None,
                },
            ),
        ),
        crate::strutil::spec_contains(r@, conv_stmt(f.return_base_type@)),
{
    // The signature.
    let mut sig = String::new();
    sig.append("pub fn ");
    sig.append(f.name.as_str());
    sig.append("(llm: &LlmClient");
    let mut i: usize = 0;
    proof {
        assert(f.params@.subrange(0, 0) =~= Seq::<FunctionParam>::empty());
        assert(sig@ =~= "pub fn "@ + f.name@ + "(llm: &LlmClient"@ + params_sig_fp(
            f.params@.subrange(0, 0),
        ));
    }
    while i < f.params.len()
        invariant
            i <= f.params@.len(),
            sig@ == "pub fn "@ + f.name@ + "(llm: &LlmClient"@ + params_sig_fp(
                f.params@.subrange(0, i as int),
            ),
        decreases f.params@.len() - i,
    {
        proof {
            assert(f.params@.subrange(0, i + 1 as int).drop_last() =~= f.params@.subrange(
                0,
                i as int,
            ));
            assert(f.params@.subrange(0, i + 1 as int).last() == f.params@[i as int]);
        }
        sig.append(", ");
        sig.append(f.params[i].name.as_str());
        sig.append(": ");
        sig.append(f.params[i].rust_type.as_str());
        i += 1;
    }
    proof {
        assert(f.params@.subrange(0, f.params@.len() as int) =~= f.params@);
    }
    sig.append(") -> ");
    sig.append(f.return_type.as_str());
    sig.append(" {\n");
    proof {
        assert(sig@ == sig_line_fp(*f));
    }
    // The template binding.
    let mut tline = String::new();
    tline.append("    let mut template = \"");
    tline.append(f.prompt_template.as_str());
    tline.append("\".to_string();\n");
    proof {
        assert(tline@ == template_stmt_t(f.prompt_template@));
    }
    // The meaning binding.
    let mut mline = String::new();
    match &f.semantic_meaning {
        Some(m) => {
            mline.append("    let meaning = Some(\"");
            mline.append(m.as_str());
            mline.append("\");\n");
        },
        None => {
            mline.append("    let meaning: Option<&str> = None;\n");
        },
    }
    proof {
        assert(mline@ == meaning_stmt_m(
            match f.semantic_meaning {
                Some(m) => Some(m@),
                None => None,
            },
        ));
    }
    // The conversion.
    let conv: &str = if str_eq(f.return_base_type.as_str(), "i32") {
        "into_i32"
    } else if str_eq(f.return_base_type.as_str(), "f64") {
        "into_f64"
    } else if str_eq(f.return_base_type.as_str(), "bool") {
        "into_bool"
    } else {
        "into_string"
    };
    let mut cline = String::new();
    cline.append("    result.");
    cline.append(conv);
    cline.append("()\n");
    proof {
        assert(cline@ == conv_stmt(f.return_base_type@));
    }
    // Assemble, tracking which claimed pieces stand in the text so far.
    let mut r = sig;
    let ghost claim_sig = sig_line_fp(*f);
    proof {
        assert(Seq::<char>::empty() + claim_sig =~= r@);
        lemma_contains_here(Seq::<char>::empty(), claim_sig);
    }
    let ghost r0 = r@;
    r.append(tline.as_str());
    proof {
        lemma_contains_extend(r0, tline@, claim_sig);
        lemma_contains_here(r0, tline@);
    }
    // One substitution per parameter.
    let mut j: usize = 0;
    while j < f.params.len()
        invariant
            j <= f.params@.len(),
            crate::strutil::spec_contains(r@, claim_sig),
            crate::strutil::spec_contains(r@, tline@),
            forall|i: int|
                0 <= i < j ==> crate::strutil::spec_contains(
                    r@,
                    subst_stmt(#[trigger] f.params@[i].name@),
                ),
        decreases f.params@.len() - j,
    {
        let ghost r1 = r@;
        let mut rep = String::new();
        rep.append("    template = template.replace(\"{");
        rep.append(f.params[j].name.as_str());
        rep.append("}\", &");
        rep.append(f.params[j].name.as_str());
        rep.append(".to_string());\n");
        proof {
            assert(rep@ == subst_stmt(f.params@[j as int].name@));
        }
        r.append(rep.as_str());
        proof {
            lemma_contains_extend(r1, rep@, claim_sig);
            lemma_contains_extend(r1, rep@, tline@);
            lemma_contains_here(r1, rep@);
            assert forall|i: int| 0 <= i < j implies crate::strutil::spec_contains(
                r@,
                subst_stmt(#[trigger] f.params@[i].name@),
            ) by {
                lemma_contains_extend(r1, rep@, subst_stmt(f.params@[i].name@));
            }
        }
        j += 1;
    }
    let ghost r2 = r@;
    r.append(mline.as_str());
    proof {
        lemma_contains_extend(r2, mline@, claim_sig);
        lemma_contains_extend(r2, mline@, tline@);
        assert forall|i: int| 0 <= i < f.params@.len() implies crate::strutil::spec_contains(
            r@,
            subst_stmt(#[trigger] f.params@[i].name@),
        ) by {
            lemma_contains_extend(r2, mline@, subst_stmt(f.params@[i].name@));
        }
        lemma_contains_here(r2, mline@);
    }
    let ghost r3 = r@;
    let mut eline = String::new();
    eline.append("    let result = vibe_execute_prompt(llm, &template, meaning, \"");
    eline.append(f.return_base_type.as_str());
    eline.append("\");\n");
    r.append(eline.as_str());
    proof {
        lemma_contains_extend(r3, eline@, claim_sig);
        lemma_contains_extend(r3, eline@, tline@);
        assert forall|i: int| 0 <= i < f.params@.len() implies crate::strutil::spec_contains(
            r@,
            subst_stmt(#[trigger] f.params@[i].name@),
        ) by {
            lemma_contains_extend(r3, eline@, subst_stmt(f.params@[i].name@));
        }
        lemma_contains_extend(r3, eline@, mline@);
    }
    let ghost r4 = r@;
    r.append(cline.as_str());
    proof {
        lemma_contains_extend(r4, cline@, claim_sig);
        lemma_contains_extend(r4, cline@, tline@);
        assert forall|i: int| 0 <= i < f.params@.len() implies crate::strutil::spec_contains(
            r@,
            subst_stmt(#[trigger] f.params@[i].name@),
        ) by {
            lemma_contains_extend(r4, cline@, subst_stmt(f.params@[i].name@));
        }
        lemma_contains_extend(r4, cline@, mline@);
        lemma_contains_here(r4, cline@);
    }
    let ghost r5 = r@;
    r.append("}\n\n");
    proof {
        lemma_contains_extend(r5, "}\n\n"@, claim_sig);
        lemma_contains_extend(r5, "}\n\n"@, tline@);
        assert forall|i: int| 0 <= i < f.params@.len() implies crate::strutil::spec_contains(
            r@,
            subst_stmt(#[trigger] f.params@[i].name@),
        ) by {
            lemma_contains_extend(r5, "}\n\n"@, subst_stmt(f.params@[i].name@));
        }
        lemma_contains_extend(r5, "}\n\n"@, mline@);
        lemma_contains_extend(r5, "}\n\n"@, cline@);
    }
    r
}

/// Emits one synthesized extraction function: the head named after the
/// meaning, and the body its keyword category picks, first match wins.
fn emit_extractor(e: &MeaningEntry) -> (r: String)
    ensures
        r@ == extractor_text((e.meaning@, e.base_type@, e.normalized@)),
{
    let mut head = String::new();
    head.append("pub fn extract_");
    head.append(e.normalized.as_str());
    let body: &str;
    if str_eq(e.base_type.as_str(), "i32") {
        head.append("_value");
        body = match int_strategy_for(e.meaning.as_str()) {
            IntStrategy::FirstToken => " -> i32 {\n    extract_generic_number(content)\n}\n\n",
            IntStrategy::AgeScan => " -> i32 {\n    vibe_digit_scan(content, 1, 149)\n}\n\n",
            IntStrategy::YearScan => " -> i32 {\n    vibe_digit_scan(content, 1000, 2100)\n}\n\n",
            IntStrategy::Population => " -> i32 {\n    vibe_population(content)\n}\n\n",
            IntStrategy::Generic => " -> i32 {\n    extract_generic_number(content)\n}\n\n",
        };
    } else if str_eq(e.base_type.as_str(), "f64") {
        head.append("_value");
        body = match float_strategy_for(e.meaning.as_str()) {
            FloatStrategy::StripScan => " -> f64 {\n    vibe_strip_float(content)\n}\n\n",
            FloatStrategy::Percentage => " -> f64 {\n    vibe_percent(content)\n}\n\n",
            FloatStrategy::Generic => " -> f64 {\n    extract_generic_float(content)\n}\n\n",
        };
    } else if str_eq(e.base_type.as_str(), "bool") {
        head.append("_boolean");
        body = match bool_strategy_for(e.meaning.as_str()) {
            BoolStrategy::Availability => " -> bool {\n    vibe_contains_any(content, &[\"yes\", \"available\", \"in stock\"])\n}\n\n",
            BoolStrategy::Recommendation => " -> bool {\n    vibe_contains_any(content, &[\"yes\", \"recommend\"])\n}\n\n",
            BoolStrategy::Sentiment => " -> bool {\n    vibe_contains_any(content, &[\"positive\", \"good\", \"great\"])\n}\n\n",
            BoolStrategy::Generic => " -> bool {\n    extract_generic_boolean(content)\n}\n\n",
        };
    } else {
        head.append("_string");
        body = match text_strategy_for(e.meaning.as_str()) {
            TextStrategy::Field => " -> String {\n    vibe_field(content)\n}\n\n",
            TextStrategy::FullText => " -> String {\n    content.trim().to_string()\n}\n\n",
            TextStrategy::Summary => " -> String {\n    vibe_summary(content, 100)\n}\n\n",
            TextStrategy::Historical => " -> String {\n    vibe_summary(content, 200)\n}\n\n",
            TextStrategy::Generic => " -> String {\n    content.trim().to_string()\n}\n\n",
        };
    }
    head.append("(content: &str)");
    proof {
        assert(head@ == extractor_head((e.meaning@, e.base_type@, e.normalized@)));
        assert(body@ == extractor_body((e.meaning@, e.base_type@, e.normalized@)));
    }
    let mut r = head;
    r.append(body);
    r
}

/// Every synthesized extraction function stays in place when more text is
/// appended.
proof fn lemma_keep_entry_claims(out0: Seq<char>, piece: Seq<char>, t: GenTables)
    requires
        forall|j: int|
            0 <= j < t.entries.len() ==> crate::strutil::spec_contains(
                out0,
                extractor_text(#[trigger] t.entries[j]),
            ),
    ensures
        forall|j: int|
            0 <= j < t.entries.len() ==> crate::strutil::spec_contains(
                out0 + piece,
                extractor_text(#[trigger] t.entries[j]),
            ),
{
    assert forall|j: int| 0 <= j < t.entries.len() implies crate::strutil::spec_contains(
        out0 + piece,
        extractor_text(#[trigger] t.entries[j]),
    ) by {
        lemma_contains_extend(out0, piece, extractor_text(t.entries[j]));
    }
}

/// Every dispatch arm of one primitive stays in place when more text is
/// appended.
proof fn lemma_keep_arms_of_base(out0: Seq<char>, piece: Seq<char>, t: GenTables, base: Seq<char>)
    requires
        forall|j: int|
            0 <= j < t.entries.len() && (#[trigger] t.entries[j]).1 == base
                ==> crate::strutil::spec_contains(out0, dispatch_arm(t.entries[j])),
    ensures
        forall|j: int|
            0 <= j < t.entries.len() && (#[trigger] t.entries[j]).1 == base
                ==> crate::strutil::spec_contains(out0 + piece, dispatch_arm(t.entries[j])),
{
    assert forall|j: int|
        0 <= j < t.entries.len() && (#[trigger] t.entries[j]).1
            == base implies crate::strutil::spec_contains(
        out0 + piece,
        dispatch_arm(t.entries[j]),
    ) by {
        lemma_contains_extend(out0, piece, dispatch_arm(t.entries[j]));
    }
}

/// Emits one primitive's decode dispatcher: its fixed head, one arm per
/// meaning of that primitive, and the generic fallback arm.
#[verifier::loop_isolation(false)]
fn emit_one_dispatcher(
    entries: &Vec<MeaningEntry>,
    head: &str,
    base: &str,
    suffix: &str,
    footer: &str,
) -> (r: String)
    requires
        suffix@ == suffix_for(base@),
    ensures
        crate::strutil::spec_contains(r@, head@),
        crate::strutil::spec_contains(r@, footer@),
        forall|j: int|
            0 <= j < entry_views(entries@).len() && (#[trigger] entry_views(entries@)[j]).1
                == base@ ==> crate::strutil::spec_contains(
                r@,
                dispatch_arm(entry_views(entries@)[j]),
            ),
{
    let mut r: String = head.to_owned();
    proof {
        assert(Seq::<char>::empty() + head@ =~= r@);
        lemma_contains_here(Seq::<char>::empty(), head@);
    }
    let mut i: usize = 0;
    while i < entries.len()
        invariant
            i <= entries@.len(),
            crate::strutil::spec_contains(r@, head@),
            forall|j: int|
                0 <= j < i && (#[trigger] entry_views(entries@)[j]).1 == base@
                    ==> crate::strutil::spec_contains(r@, dispatch_arm(entry_views(entries@)[j])),
        decreases entries@.len() - i,
    {
        if str_eq(entries[i].base_type.as_str(), base) {
            let mut arm = String::new();
            arm.append("        Some(\"");
            arm.append(entries[i].meaning.as_str());
            arm.append("\") => extract_");
            arm.append(entries[i].normalized.as_str());
            arm.append(suffix);
            arm.append("(content),\n");
            proof {
                assert(arm@ == dispatch_arm(entry_views(entries@)[i as int]));
            }
            let ghost r0 = r@;
            r.append(arm.as_str());
            proof {
                lemma_contains_here(r0, arm@);
                lemma_contains_extend(r0, arm@, head@);
                assert forall|j: int|
                    0 <= j < i && (#[trigger] entry_views(entries@)[j]).1
                        == base@ implies crate::strutil::spec_contains(
                    r@,
                    dispatch_arm(entry_views(entries@)[j]),
                ) by {
                    lemma_contains_extend(r0, arm@, dispatch_arm(entry_views(entries@)[j]));
                }
            }
        }
        i += 1;
    }
    let ghost r1 = r@;
    r.append(footer);
    proof {
        lemma_contains_extend(r1, footer@, head@);
        lemma_contains_here(r1, footer@);
        assert forall|j: int|
            0 <= j < entry_views(entries@).len() && (#[trigger] entry_views(entries@)[j]).1
                == base@ implies crate::strutil::spec_contains(
            r@,
            dispatch_arm(entry_views(entries@)[j]),
        ) by {
            lemma_contains_extend(r1, footer@, dispatch_arm(entry_views(entries@)[j]));
        }
    }
    r
}

/// Emits the fixed runtime support surface and the meaning-keyed decoders
/// of the generated program.
fn emit_runtime_tail(as_lib: bool) -> (r: String) {
    let mut out = String::new();
    // The neutral value, its conversions, the generic extractors, prompt
    // formatting and the backend call.
    out.append(
        "pub fn parse_semantic_response(content: &str, meaning: Option<&str>, return_type: &str) -> VibeValue {\n    match return_type {\n        \"i32\" => VibeValue::Number(parse_integer_semantic(content, meaning) as f64),\n        \"f64\" => VibeValue::Number(parse_float_semantic(content, meaning)),\n        \"bool\" => VibeValue::Boolean(parse_boolean_semantic(content, meaning)),\n        _ => VibeValue::Text(parse_string_semantic(content, meaning)),\n    }\n}\n\n",
    );
    out.append(
        "pub fn vibe_execute_prompt(llm: &LlmClient, prompt: &str, meaning: Option<&str>, return_type: &str) -> VibeValue {\n    match llm.generate(prompt) {\n        Ok(reply) => parse_semantic_response(&reply, meaning, return_type),\n        Err(_) => VibeValue::Null,\n    }\n}\n\n",
    );
    out.append(
        "pub fn extract_generic_number(content: &str) -> i32 {\n    for tok in content.split_whitespace() {\n        if let Ok(v) = tok.parse::<i32>() {\n            return v;\n        }\n    }\n    0\n}\n\n",
    );
    out.append(
        "pub fn extract_generic_float(content: &str) -> f64 {\n    for tok in content.split_whitespace() {\n        if let Ok(v) = tok.parse::<f64>() {\n            return v;\n        }\n    }\n    0.0\n}\n\n",
    );
    out.append(
        "pub fn extract_generic_boolean(content: &str) -> bool {\n    let l = content.to_lowercase();\n    l.contains(\"true\") || l.contains(\"yes\") || l.contains(\"positive\")\n}\n\n",
    );
    out.append(
        "pub fn vibe_digit_scan(content: &str, low: i64, high: i64) -> i32 {\n    for tok in content.split_whitespace() {\n        let digits: String = tok.chars().filter(|c| c.is_ascii_digit()).collect();\n        if !digits.is_empty() {\n            if let Ok(v) = digits.parse::<i64>() {\n                if low <= v && v <= high {\n                    return v as i32;\n                }\n            }\n        }\n    }\n    0\n}\n\n",
    );
    out.append(
        "pub fn vibe_population(content: &str) -> i32 {\n    for tok in content.split_whitespace() {\n        let kept: String = tok.chars().filter(|c| c.is_ascii_digit() || *c == '.').collect();\n        if kept.chars().any(|c| c.is_ascii_digit()) {\n            if let Ok(v) = kept.parse::<f64>() {\n                return v as i32;\n            }\n        }\n    }\n    0\n}\n\n",
    );
    out.append(
        "pub fn vibe_contains_any(content: &str, words: &[&str]) -> bool {\n    let l = content.to_lowercase();\n    for w in words {\n        if l.contains(w) {\n            return true;\n        }\n    }\n    false\n}\n\n",
    );
    out.append(
        "pub fn vibe_field(content: &str) -> String {\n    for tok in content.split_whitespace() {\n        if tok.chars().count() > 3 && tok.chars().all(|c| c.is_alphabetic()) {\n            return tok.to_string();\n        }\n    }\n    \"unknown\".to_string()\n}\n\n",
    );
    out.append(
        "pub fn vibe_summary(content: &str, limit: usize) -> String {\n    let t = content.trim();\n    if let Some(p) = t.find('.') {\n        return t[..p + 1].to_string();\n    }\n    if t.chars().count() > limit {\n        let mut cut: String = t.chars().take(limit).collect();\n        cut.push_str(\"...\");\n        return cut;\n    }\n    t.to_string()\n}\n\n",
    );
    out.append(
        "pub fn vibe_strip_float(content: &str) -> f64 {\n    for tok in content.split_whitespace() {\n        let kept: String = tok.chars().filter(|c| c.is_ascii_digit() || *c == '.').collect();\n        if kept.chars().any(|c| c.is_ascii_digit()) {\n            if let Ok(v) = kept.parse::<f64>() {\n                return v;\n            }\n        }\n    }\n    0.0\n}\n\n",
    );
    out.append(
        "pub fn vibe_percent(content: &str) -> f64 {\n    let t = content.trim().trim_end_matches('%');\n    if let Ok(v) = t.parse::<f64>() {\n        return v;\n    }\n    extract_generic_float(content)\n}\n\n",
    );
    out.append(
        "pub fn vibe_format_prompt(template: &str, vars: &[(&str, String)]) -> String {\n    let mut result = template.to_string();\n    for (name, value) in vars {\n        let mut ph = String::from(\"{\");\n        ph.push_str(name);\n        ph.push_str(\"}\");\n        result = result.replace(&ph, value);\n    }\n    result\n}\n\n",
    );
    out.append(
        "#[derive(Debug, Clone)]\npub enum VibeValue {\n    Null,\n    Boolean(bool),\n    Number(f64),\n    Text(String),\n}\n\nimpl VibeValue {\n    pub fn into_i32(self) -> i32 {\n        match self {\n            VibeValue::Number(n) => n as i32,\n            VibeValue::Text(s) => s.trim().parse::<i32>().unwrap_or(0),\n            VibeValue::Boolean(b) => {\n                if b {\n                    1\n                } else {\n                    0\n                }\n            }\n            VibeValue::Null => 0,\n        }\n    }\n\n    pub fn into_f64(self) -> f64 {\n        match self {\n            VibeValue::Number(n) => n,\n            VibeValue::Text(s) => s.trim().parse::<f64>().unwrap_or(0.0),\n            VibeValue::Boolean(b) => {\n                if b {\n                    1.0\n                } else {\n                    0.0\n                }\n            }\n            VibeValue::Null => 0.0,\n        }\n    }\n\n    pub fn into_bool(self) -> bool {\n        match self {\n            VibeValue::Boolean(b) => b,\n            VibeValue::Text(s) => {\n                let l = s.to_lowercase();\n                l.contains(\"true\") || l.contains(\"yes\")\n            }\n            VibeValue::Number(n) => n != 0.0,\n            VibeValue::Null => false,\n        }\n    }\n\n    pub fn into_string(self) -> String {\n        match self {\n            VibeValue::Text(s) => s,\n            VibeValue::Number(n) => n.to_string(),\n            VibeValue::Boolean(b) => b.to_string(),\n            VibeValue::Null => String::new(),\n        }\n    }\n}\n\n",
    );
    out.append(
        "pub struct LlmClient {\n    pub base_url: String,\n    pub model: String,\n}\n\nimpl LlmClient {\n    pub fn new(base_url: String, model: String) -> LlmClient {\n        LlmClient { base_url, model }\n    }\n\n    pub fn generate(&self, prompt: &str) -> Result<String, String> {\n        let mut url = self.base_url.clone();\n        url.push_str(\"/api/generate\");\n        let mut body = serde_json::Map::new();\n        body.insert(\"model\".to_string(), serde_json::Value::String(self.model.clone()));\n        body.insert(\"prompt\".to_string(), serde_json::Value::String(prompt.to_string()));\n        body.insert(\"stream\".to_string(), serde_json::Value::Bool(false));\n        let client = reqwest::blocking::Client::new();\n        let response = client\n            .post(&url)\n            .json(&serde_json::Value::Object(body))\n            .send()\n            .map_err(|e| e.to_string())?;\n        if !response.status().is_success() {\n            return Err(\"backend request failed\".to_string());\n        }\n        let value: serde_json::Value = response.json().map_err(|e| e.to_string())?;\n        match value.get(\"response\").and_then(|v| v.as_str()) {\n            Some(s) => Ok(s.to_string()),\n            None => Err(\"unexpected reply shape\".to_string()),\n        }\n    }\n}\n\n",
    );
    if !as_lib {
        out.append("fn main() {\n    let _llm = LlmClient::new(\"http://localhost:11434\".to_string(), \"llama3.1\".to_string());\n}\n");
    }
    out
}

/// Whether the meaning text already has an entry.
fn meaning_present(es: &Vec<MeaningEntry>, m: &str) -> (r: bool)
    ensures
        r == (lookup_m(entry_views(es@), m@) is Some),
{
    let mut i: usize = 0;
    proof {
        assert(entry_views(es@).skip(0) =~= entry_views(es@));
    }
    while i < es.len()
        invariant
            i <= es@.len(),
            lookup_m(entry_views(es@), m@) == lookup_m(entry_views(es@).skip(i as int), m@),
        decreases es@.len() - i,
    {
        proof {
            assert(entry_views(es@).skip(i as int)[0] == entry_views(es@)[i as int]);
            assert(entry_views(es@).skip(i as int).drop_first() =~= entry_views(es@).skip(i + 1));
        }
        if str_eq(es[i].meaning.as_str(), m) {
            return true;
        }
        i += 1;
    }
    false
}

} // verus!
