//! Scaffolding of the generated project: the manifest text, the version
//! read from a manifest, the meaning annotations of a source text, and
//! project names suggested by the backend.
//!
//! The backend call and the JSON reading stand behind trusted items; every
//! rule around them — when the defaults are used, how a suggested package
//! name is adjusted — is verified.

use vstd::prelude::*;
use vstd::string::{StrSliceExecFns, StringExecFns};
use crate::strutil::{str_eq, to_chars, from_chars, replace_all, spec_replace_all};
use crate::runtime::llm_provider::{LlmProvider, LlmError};

verus! {

// ---------------------------------------------------------------------------
// JSON reading, behind trusted items
// ---------------------------------------------------------------------------

#[verifier::external_type_specification]
#[verifier::external_body]
pub struct ExValue(serde_json::Value);

/// What parsing a text as a JSON document yields; a function of the text
/// alone.
pub uninterp spec fn spec_json_parse(s: Seq<char>) -> Option<serde_json::Value>;

/// The value under a key of a JSON value; a function of the value and the
/// key alone.
pub uninterp spec fn spec_json_get(v: serde_json::Value, key: Seq<char>) -> Option<
    serde_json::Value,
>;

/// The text a JSON string value holds; a function of the value alone.
pub uninterp spec fn spec_json_str(v: serde_json::Value) -> Option<Seq<char>>;

/// Relies on `serde_json::from_str::<serde_json::Value>`: parses a JSON
/// document, or fails; the outcome depends on the text alone.
#[verifier::external_body]
fn json_parse(s: &str) -> (r: Option<serde_json::Value>)
    ensures
        r == spec_json_parse(s@),
{
    serde_json::from_str::<serde_json::Value>(s).ok()
}

/// Relies on `serde_json::Value::get` with a string index: the value under
/// the key of a JSON object, where there is one.
#[verifier::external_body]
fn json_get<'a>(v: &'a serde_json::Value, key: &str) -> (r: Option<&'a serde_json::Value>)
    ensures
        match r {
            Some(x) => spec_json_get(*v, key@) == Some(*x),
            None => spec_json_get(*v, key@) is None,
        },
{
    v.get(key)
}

/// Relies on `serde_json::Value::as_str`: the text of a JSON string value.
#[verifier::external_body]
fn json_as_str(v: &serde_json::Value) -> (r: Option<String>)
    ensures
        match r {
            Some(t) => spec_json_str(*v) == Some(t@),
            None => spec_json_str(*v) is None,
        },
{
    match v.as_str() {
        Some(s) => Some(s.to_string()),
        None => None,
    }
}

// ---------------------------------------------------------------------------
// Meaning annotations of a source text
// ---------------------------------------------------------------------------

/// Position of the next double quote at or after `i`, or the end.
pub open spec fn scan_quote(s: Seq<char>, i: int) -> int
    decreases s.len() - i,
{
    if 0 <= i < s.len() {
        if s[i] == '"' {
            i
        } else {
            scan_quote(s, i + 1)
        }
    } else {
        s.len() as int
    }
}

pub proof fn lemma_scan_quote_bounds(s: Seq<char>, i: int)
    requires
        0 <= i <= s.len(),
    ensures
        i <= scan_quote(s, i) <= s.len(),
    decreases s.len() - i,
{
    if i < s.len() && s[i] != '"' {
        lemma_scan_quote_bounds(s, i + 1);
    }
}

/// The meaning strings of the source: after each occurrence of the meaning
/// wrapper, the text of the next string literal.
pub open spec fn annotations_from(s: Seq<char>, i: int) -> Seq<Seq<char>>
    decreases s.len() - i,
        via annotations_from_decreases
{
    if !(0 <= i && i + 8 <= s.len()) {
        Seq::empty()
    } else if s.subrange(i, i + 8) == "Meaning<"@ {
        let q1 = scan_quote(s, i + 8);
        if q1 < s.len() {
            let q2 = scan_quote(s, q1 + 1);
            if q2 < s.len() {
                seq![s.subrange(q1 + 1, q2)] + annotations_from(s, q2 + 1)
            } else {
                Seq::empty()
            }
        } else {
            Seq::empty()
        }
    } else {
        annotations_from(s, i + 1)
    }
}

#[via_fn]
proof fn annotations_from_decreases(s: Seq<char>, i: int) {
    if 0 <= i && i + 8 <= s.len() {
        lemma_scan_quote_bounds(s, i + 8);
        let q1 = scan_quote(s, i + 8);
        if q1 < s.len() {
            lemma_scan_quote_bounds(s, q1 + 1);
        }
    }
}

pub open spec fn spec_annotations(s: Seq<char>) -> Seq<Seq<char>> {
    annotations_from(s, 0)
}

// ---------------------------------------------------------------------------
// The manifest version line
// ---------------------------------------------------------------------------

pub open spec fn is_line_space(c: char) -> bool {
    c == ' ' || c == '\t'
}

/// First position at or after `i` that is no space or tab.
pub open spec fn skip_sp(s: Seq<char>, i: int) -> int
    decreases s.len() - i,
{
    if 0 <= i < s.len() && is_line_space(s[i]) {
        skip_sp(s, i + 1)
    } else {
        i
    }
}

pub proof fn lemma_skip_sp_bounds(s: Seq<char>, i: int)
    requires
        0 <= i <= s.len(),
    ensures
        i <= skip_sp(s, i) <= s.len(),
    decreases s.len() - i,
{
    if i < s.len() && is_line_space(s[i]) {
        lemma_skip_sp_bounds(s, i + 1);
    }
}

/// The version captured by a `version = "..."` line that starts at `i`:
/// the keyword, spaces, an equals sign, spaces, and a non-empty quoted
/// text.
pub open spec fn version_at(s: Seq<char>, i: int) -> Option<Seq<char>> {
    if !(0 <= i && i + 7 <= s.len() && s.subrange(i, i + 7) == "version"@) {
        None
    } else {
        let a = skip_sp(s, i + 7);
        if a < s.len() && s[a] == '=' {
            let b = skip_sp(s, a + 1);
            if b < s.len() && s[b] == '"' {
                let e = scan_quote(s, b + 1);
                if e < s.len() && e > b + 1 {
                    Some(s.subrange(b + 1, e))
                } else {
                    None
                }
            } else {
                None
            }
        } else {
            None
        }
    }
}

/// The first version line of the text, scanning line starts left to right.
pub open spec fn find_version(s: Seq<char>, i: int) -> Option<Seq<char>>
    decreases s.len() - i,
{
    if !(0 <= i < s.len()) {
        None
    } else if (i == 0 || s[i - 1] == '\n') && version_at(s, i) is Some {
        version_at(s, i)
    } else {
        find_version(s, i + 1)
    }
}

pub open spec fn spec_extract_version(s: Seq<char>) -> Option<Seq<char>> {
    find_version(s, 0)
}

/// Copies the characters `from..to` into a string.
fn span_string(v: &Vec<char>, from: usize, to: usize) -> (r: String)
    requires
        from <= to <= v@.len(),
    ensures
        r@ == v@.subrange(from as int, to as int),
{
    let mut out: Vec<char> = Vec::new();
    let mut k = from;
    while k < to
        invariant
            from <= k <= to <= v@.len(),
            out@ == v@.subrange(from as int, k as int),
        decreases to - k,
    {
        out.push(v[k]);
        proof {
            assert(out@ =~= v@.subrange(from as int, k + 1 as int));
        }
        k += 1;
    }
    from_chars(&out)
}

/// Finds the next double quote, as `scan_quote` says.
#[verifier::loop_isolation(false)]
fn find_quote(v: &Vec<char>, start: usize) -> (r: usize)
    requires
        start <= v@.len(),
    ensures
        r == scan_quote(v@, start as int),
        start <= r <= v@.len(),
{
    let n = v.len();
    let mut j = start;
    while j < n && v[j] != '"'
        invariant
            start <= j <= n,
            scan_quote(v@, start as int) == scan_quote(v@, j as int),
        decreases n - j,
    {
        j += 1;
    }
    j
}

/// Skips spaces and tabs, as `skip_sp` says.
#[verifier::loop_isolation(false)]
fn find_nonspace(v: &Vec<char>, start: usize) -> (r: usize)
    requires
        start <= v@.len(),
    ensures
        r == skip_sp(v@, start as int),
        start <= r <= v@.len(),
{
    let n = v.len();
    let mut j = start;
    while j < n && (v[j] == ' ' || v[j] == '\t')
        invariant
            start <= j <= n,
            skip_sp(v@, start as int) == skip_sp(v@, j as int),
        decreases n - j,
    {
        j += 1;
    }
    j
}

/// Whether the text at `i` starts with the pattern.
#[verifier::loop_isolation(false)]
fn matches_at(v: &Vec<char>, i: usize, pat: &str) -> (r: bool)
    requires
        i <= v@.len(),
    ensures
        r == (i + pat@.len() <= v@.len() && v@.subrange(i as int, i + pat@.len()) == pat@),
{
    let p = to_chars(pat);
    let m = p.len();
    if m > v.len() - i {
        return false;
    }
    let mut j: usize = 0;
    while j < m
        invariant
            j <= m,
            i + m <= v@.len(),
            forall|k: int| 0 <= k < j ==> v@[i + k] == pat@[k],
        decreases m - j,
    {
        if v[i + j] != p[j] {
            proof {
                assert(v@.subrange(i as int, i + m)[j as int] == v@[i + j]);
            }
            return false;
        }
        j += 1;
    }
    proof {
        assert(v@.subrange(i as int, i + m) =~= pat@);
    }
    true
}

/// Annotations joined by comma-space.
pub open spec fn join_comma(ws: Seq<Seq<char>>) -> Seq<char>
    decreases ws.len(),
{
    if ws.len() == 0 {
        Seq::empty()
    } else if ws.len() == 1 {
        ws[0]
    } else {
        join_comma(ws.drop_last()) + ", "@ + ws.last()
    }
}

/// The prompt the naming step hands to the backend: the annotations and
/// the reply shape it asks for.
pub open spec fn spec_naming_prompt(anns: Seq<Seq<char>>) -> Seq<char> {
    "Based on these concepts: "@ + join_comma(anns)
        + ". Suggest a package name and a binary name. Reply ONLY with JSON of the shape {\"packagename\": \"name\", \"binname\": \"name\"}."@
}

/// Builds the naming prompt, exactly as `spec_naming_prompt` says.
#[verifier::loop_isolation(false)]
fn naming_prompt(annotations: &Vec<String>) -> (r: String)
    ensures
        r@ == spec_naming_prompt(crate::strutil::string_views(annotations@)),
{
    let ghost anns = crate::strutil::string_views(annotations@);
    let mut prompt: String = "Based on these concepts: ".to_owned();
    let mut i: usize = 0;
    proof {
        assert(join_comma(anns.subrange(0, 0)) =~= Seq::<char>::empty());
        assert(prompt@ =~= "Based on these concepts: "@ + join_comma(anns.subrange(0, 0)));
    }
    while i < annotations.len()
        invariant
            i <= annotations@.len(),
            prompt@ == "Based on these concepts: "@ + join_comma(anns.subrange(0, i as int)),
        decreases annotations@.len() - i,
    {
        proof {
            assert(anns.subrange(0, i + 1 as int).drop_last() =~= anns.subrange(0, i as int));
            assert(anns.subrange(0, i + 1 as int).last() == annotations@[i as int]@);
        }
        if i > 0 {
            prompt.append(", ");
        }
        prompt.append(annotations[i].as_str());
        proof {
            if i == 0 {
                assert(anns.subrange(0, 1)[0] == annotations@[0]@);
                assert(prompt@ =~= "Based on these concepts: "@ + join_comma(
                    anns.subrange(0, 1),
                ));
            } else {
                assert(prompt@ =~= "Based on these concepts: "@ + (join_comma(
                    anns.subrange(0, i as int),
                ) + ", "@ + anns.subrange(0, i + 1 as int).last()));
            }
        }
        i += 1;
    }
    proof {
        assert(anns.subrange(0, annotations@.len() as int) =~= anns);
    }
    prompt.append(
        ". Suggest a package name and a binary name. Reply ONLY with JSON of the shape {\"packagename\": \"name\", \"binname\": \"name\"}.",
    );
    prompt
}

pub struct ProjectBuilder<'a, T: LlmProvider> {
    llm_client: &'a T,
}

impl<'a, T: LlmProvider> ProjectBuilder<'a, T> {
    /// A builder around the backend that suggests project names.
    pub fn new(llm_client: &'a T) -> (r: ProjectBuilder<'a, T>) {
        ProjectBuilder { llm_client }
    }

    /// Reads the version out of manifest text, exactly as
    /// `spec_extract_version` says: the first line that sets `version` to a
    /// non-empty quoted text.
    #[verifier::loop_isolation(false)]
    pub fn extract_version_from_cargo_toml(&self, content: &str) -> (r: Option<String>)
        ensures
            match r {
                Some(s) => spec_extract_version(content@) == Some(s@),
                None => spec_extract_version(content@) is None,
            },
    {
        proof {
            reveal_strlit("version");
        }
        let v = to_chars(content);
        let n = v.len();
        let mut i: usize = 0;
        while i < n
            invariant
                i <= n,
                find_version(v@, 0) == find_version(v@, i as int),
            decreases n - i,
        {
            if (i == 0 || v[i - 1] == '\n') && matches_at(&v, i, "version") {
                let a = find_nonspace(&v, i + 7);
                if a < n && v[a] == '=' {
                    let b = find_nonspace(&v, a + 1);
                    if b < n && v[b] == '"' {
                        let e = find_quote(&v, b + 1);
                        if e < n && e > b + 1 {
                            proof {
                                assert(version_at(v@, i as int) == Some(
                                    v@.subrange(b + 1, e as int),
                                ));
                            }
                            return Some(span_string(&v, b + 1, e));
                        }
                    }
                }
            }
            proof {
                assert(version_at(v@, i as int) is None || !(i == 0 || v@[i - 1] == '\n'));
            }
            i += 1;
        }
        None
    }

    /// The manifest of the generated project, exactly the text
    /// `spec_cargo_toml` gives: package block, dependencies, and either a
    /// library or a binary section.
    pub fn create_cargo_toml_content(
        &self,
        package_name: &str,
        bin_name: &str,
        as_lib: bool,
        vibelang_version: &str,
    ) -> (r: Result<String, LlmError>)
        ensures
            r matches Ok(s) && s@ == spec_cargo_toml(
                package_name@,
                bin_name@,
                as_lib,
                vibelang_version@,
            ),
    {
        let mut out = String::new();
        out.append("[package]\nname = \"");
        out.append(package_name);
        out.append("\"\nversion = \"0.1.0\"\nedition = \"2024\"\n\n[dependencies]\nvibelang = \"");
        out.append(vibelang_version);
        out.append("\"\nanyhow = \"1.0\"\nreqwest = { version = \"0.12\", features = [\"json\", \"blocking\"] }\nserde_json = \"1.0\"\n");
        if as_lib {
            out.append("tokio = { version = \"1.0\", features = [\"full\"] }\n\n[lib]\nname = \"");
            let lib_name = replace_all(package_name, "-", "_");
            out.append(lib_name.as_str());
            out.append("\"\ncrate-type = [\"rlib\"]\n");
        } else {
            out.append("\n[[bin]]\nname = \"");
            out.append(bin_name);
            out.append("\"\npath = \"src/main.rs\"\n");
        }
        Ok(out)
    }

    /// The meaning annotations of a source text, exactly as
    /// `spec_annotations` says: the string literal after each occurrence of
    /// the meaning wrapper.
    #[verifier::loop_isolation(false)]
    pub fn extract_semantic_annotations(&self, source: &str) -> (r: Vec<String>)
        ensures
            crate::strutil::string_views(r@) == spec_annotations(source@),
    {
        proof {
            reveal_strlit("Meaning<");
        }
        let v = to_chars(source);
        let n = v.len();
        let mut out: Vec<String> = Vec::new();
        let mut i: usize = 0;
        proof {
            assert(crate::strutil::string_views(out@) + annotations_from(v@, 0)
                =~= annotations_from(v@, 0));
        }
        while i < n
            invariant
                i <= n,
                crate::strutil::string_views(out@) + annotations_from(v@, i as int)
                    == annotations_from(v@, 0),
            decreases n - i,
        {
            if matches_at(&v, i, "Meaning<") {
                let q1 = find_quote(&v, i + 8);
                if q1 < n {
                    let q2 = find_quote(&v, q1 + 1);
                    if q2 < n {
                        let ann = span_string(&v, q1 + 1, q2);
                        out.push(ann);
                        proof {
                            assert(crate::strutil::string_views(out@)
                                =~= crate::strutil::string_views(out@.drop_last()) + seq![
                                v@.subrange(q1 + 1, q2 as int),
                            ]);
                            assert(crate::strutil::string_views(out@) + annotations_from(
                                v@,
                                q2 + 1,
                            ) =~= crate::strutil::string_views(out@.drop_last()) + (seq![
                                v@.subrange(q1 + 1, q2 as int),
                            ] + annotations_from(v@, q2 + 1)));
                        }
                        i = q2 + 1;
                    } else {
                        proof {
                            assert(annotations_from(v@, i as int) =~= Seq::<Seq<char>>::empty());
                            assert(crate::strutil::string_views(out@) =~= annotations_from(v@, 0));
                        }
                        return out;
                    }
                } else {
                    proof {
                        assert(annotations_from(v@, i as int) =~= Seq::<Seq<char>>::empty());
                        assert(crate::strutil::string_views(out@) =~= annotations_from(v@, 0));
                    }
                    return out;
                }
            } else {
                i += 1;
            }
        }
        proof {
            assert(crate::strutil::string_views(out@) =~= annotations_from(v@, 0));
        }
        out
    }

    /// Suggests the package and binary names. A source without meaning
    /// annotations gets the fixed defaults at once; otherwise the backend
    /// is asked once, and its reply decides through `names_from_response`,
    /// falling back to the same defaults on a failed call.
    pub fn generate_project_names(&self, source: &str) -> (r: Result<(String, String), LlmError>)
        ensures
            r is Ok,
            spec_annotations(source@).len() == 0 ==> (r matches Ok(p) && p.0@ == "vibe-project"@
                && p.1@ == "vibeapp"@),
    {
        let annotations = self.extract_semantic_annotations(source);
        if annotations.len() == 0 {
            proof {
                assert(spec_annotations(source@).len() == 0);
            }
            return Ok(("vibe-project".to_owned(), "vibeapp".to_owned()));
        }
        let prompt = naming_prompt(&annotations);
        proof {
            assert(prompt@ == spec_naming_prompt(spec_annotations(source@)));
        }
        match self.llm_client.generate(prompt.as_str()) {
            Ok(response) => Ok(names_from_response(response.as_str())),
            Err(_) => Ok(("vibe-project".to_owned(), "vibeapp".to_owned())),
        }
    }
}

/// The manifest text of a generated project.
pub open spec fn spec_cargo_toml(
    pkg: Seq<char>,
    bin: Seq<char>,
    as_lib: bool,
    ver: Seq<char>,
) -> Seq<char> {
    "[package]\nname = \""@ + pkg
        + "\"\nversion = \"0.1.0\"\nedition = \"2024\"\n\n[dependencies]\nvibelang = \""@ + ver
        + "\"\nanyhow = \"1.0\"\nreqwest = { version = \"0.12\", features = [\"json\", \"blocking\"] }\nserde_json = \"1.0\"\n"@
        + (if as_lib {
        "tokio = { version = \"1.0\", features = [\"full\"] }\n\n[lib]\nname = \""@
            + spec_replace_all(pkg, "-"@, "_"@) + "\"\ncrate-type = [\"rlib\"]\n"@
    } else {
        "\n[[bin]]\nname = \""@ + bin + "\"\npath = \"src/main.rs\"\n"@
    })
}

/// The fixed fallback project names.
pub open spec fn default_names() -> (Seq<char>, Seq<char>) {
    ("vibe-project"@, "vibeapp"@)
}

/// What one backend reply decides: a JSON object with string fields
/// `packagename` and `binname` yields them, the package name with every
/// underscore turned into a hyphen; anything else yields the defaults.
pub open spec fn spec_names_from(s: Seq<char>) -> (Seq<char>, Seq<char>) {
    match spec_json_parse(s) {
        None => default_names(),
        Some(v) => match spec_json_get(v, "packagename"@) {
            None => default_names(),
            Some(pv) => match spec_json_str(pv) {
                None => default_names(),
                Some(pkg) => match spec_json_get(v, "binname"@) {
                    None => default_names(),
                    Some(bv) => match spec_json_str(bv) {
                        None => default_names(),
                        Some(bin) => (spec_replace_all(pkg, "_"@, "-"@), bin),
                    },
                },
            },
        },
    }
}

/// Decides the project names from one backend reply, exactly as
/// `spec_names_from` says. Verified for every reply; only the JSON reading
/// itself is trusted.
pub fn names_from_response(resp: &str) -> (r: (String, String))
    ensures
        r.0@ == spec_names_from(resp@).0,
        r.1@ == spec_names_from(resp@).1,
{
    let parsed = match json_parse(resp) {
        Some(v) => v,
        None => {
            return ("vibe-project".to_owned(), "vibeapp".to_owned());
        },
    };
    let pkg = match json_get(&parsed, "packagename") {
        Some(v) => match json_as_str(v) {
            Some(s) => s,
            None => {
                return ("vibe-project".to_owned(), "vibeapp".to_owned());
            },
        },
        None => {
            return ("vibe-project".to_owned(), "vibeapp".to_owned());
        },
    };
    let bin = match json_get(&parsed, "binname") {
        Some(v) => match json_as_str(v) {
            Some(s) => s,
            None => {
                return ("vibe-project".to_owned(), "vibeapp".to_owned());
            },
        },
        None => {
            return ("vibe-project".to_owned(), "vibeapp".to_owned());
        },
    };
    (replace_all(pkg.as_str(), "_", "-"), bin)
}

} // verus!
