//! Prompt formatting and the neutral value kinds shared with generated
//! code. The network half of the original interface lives outside the
//! verified library.

use vstd::prelude::*;
use vstd::string::StringExecFns;
use crate::strutil::{replace_all, spec_replace_all};

verus! {

/// The kind of a neutral runtime value: nothing, a truth value, a number,
/// or text.
#[derive(Debug, Clone, Copy, PartialEq, Eq, Structural)]
pub enum VibeValueType {
    Null,
    Boolean,
    Number,
    Text,
}

/// The placeholder that a variable named `n` occupies in a template.
pub open spec fn placeholder(n: Seq<char>) -> Seq<char> {
    seq!['{'] + n + seq!['}']
}

/// One substitution pass per variable, in order: each replaces every
/// occurrence of its placeholder by its value.
pub open spec fn spec_format_prompt(t: Seq<char>, vars: Seq<(String, String)>) -> Seq<char>
    decreases vars.len(),
{
    if vars.len() == 0 {
        t
    } else {
        spec_format_prompt(
            spec_replace_all(t, placeholder(vars[0].0@), vars[0].1@),
            vars.drop_first(),
        )
    }
}

/// Substitutes each variable's value for its `{name}` placeholder in the
/// template, one pass per variable, in the order given.
#[verifier::loop_isolation(false)]
pub fn format_prompt(template: &str, variables: &Vec<(String, String)>) -> (r: String)
    ensures
        r@ == spec_format_prompt(template@, variables@),
{
    let mut result: String = template.to_owned();
    let mut i: usize = 0;
    proof {
        assert(variables@.skip(0) =~= variables@);
    }
    while i < variables.len()
        invariant
            i <= variables@.len(),
            spec_format_prompt(template@, variables@) == spec_format_prompt(
                result@,
                variables@.skip(i as int),
            ),
        decreases variables@.len() - i,
    {
        let mut pat: String = String::new();
        pat.append("{");
        pat.append(variables[i].0.as_str());
        pat.append("}");
        proof {
            reveal_strlit("{");
            reveal_strlit("}");
            assert(pat@ =~= placeholder(variables@[i as int].0@));
            assert(variables@.skip(i as int)[0] == variables@[i as int]);
            assert(variables@.skip(i as int).drop_first() =~= variables@.skip(i + 1));
        }
        result = replace_all(result.as_str(), pat.as_str(), variables[i].1.as_str());
        i += 1;
    }
    proof {
        assert(variables@.skip(variables@.len() as int) =~= Seq::<(String, String)>::empty());
    }
    result
}

} // verus!
