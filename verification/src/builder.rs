//! The name builder: base text from invocation tokens, the identity prefix,
//! and the candidate name `prefix/slug`.

use vstd::prelude::*;

verus! {

use crate::errors::BranchNameError;
use crate::slug::{sanitize, sanitize_component, sanitize_component_spec};
use crate::stamp::{today_stamp, is_date_stamp};

/// The tokens joined by single spaces.
pub open spec fn joined(args: Seq<String>) -> Seq<char>
    decreases args.len(),
{
    if args.len() == 0 {
        Seq::<char>::empty()
    } else if args.len() == 1 {
        args[0]@
    } else {
        joined(args.drop_last()) + seq![' '] + args.last()@
    }
}

/// Builds the base branch text: the tokens joined by single spaces, or
/// today's date stamp when there are none.
pub fn build_base_name(args: &Vec<String>) -> (r: String)
    ensures
        args@.len() > 0 ==> r@ == joined(args@),
        args@.len() == 0 ==> is_date_stamp(r@),
{
    if args.len() == 0 {
        today_stamp()
    } else {
        let mut out = String::new();
        let mut i: usize = 0;
        while i < args.len()
            invariant
                i <= args@.len(),
                out@ == joined(args@.take(i as int)),
            decreases args@.len() - i,
        {
            if i > 0 {
                out.append(" ");
            }
            out.append(args[i].as_str());
            proof {
                reveal_strlit(" ");
                assert(args@.take(i + 1).drop_last() =~= args@.take(i as int));
                assert(args@.take(i + 1).last() == args@[i as int]);
                if i == 0 {
                    assert(out@ =~= joined(args@.take(1)));
                } else {
                    assert(out@ =~= joined(args@.take(i + 1)));
                }
            }
            i = i + 1;
        }
        proof {
            assert(args@.take(args@.len() as int) =~= args@);
        }
        out
    }
}

/// Decides the prefix from the raw identity text: the text is sanitized as
/// a slug component, and an empty result is a validation error,
/// distinguished by whether the text came from the override variable.
pub fn resolve_prefix(raw: &str, from_override: bool) -> (r: Result<String, BranchNameError>)
    ensures
        match r {
            Ok(p) => p@ == sanitize_component_spec(raw@) && p@.len() > 0,
            Err(e) => {
                &&& sanitize_component_spec(raw@).len() == 0
                &&& e == (if from_override {
                    BranchNameError::EmptyOverridePrefix
                } else {
                    BranchNameError::EmptyIdentityPrefix
                })
            },
        },
{
    let p = sanitize_component(raw);
    if p.as_str().is_empty() {
        if from_override {
            Err(BranchNameError::EmptyOverridePrefix)
        } else {
            Err(BranchNameError::EmptyIdentityPrefix)
        }
    } else {
        Ok(p)
    }
}

/// Builds the candidate name: the prefix, a `/`, and the sanitized base
/// text (today's date stamp when the base sanitizes to nothing).
pub fn build_candidate(prefix: &str, base: &str) -> (r: String)
    ensures
        ({
            let slug = r@.skip(prefix@.len() + 1 as int);
            &&& r@ == prefix@ + seq!['/'] + slug
            &&& slug.len() > 0
            &&& (sanitize_component_spec(base@).len() > 0 ==> slug == sanitize_component_spec(
                base@,
            ))
            &&& (sanitize_component_spec(base@).len() == 0 ==> is_date_stamp(slug))
        }),
{
    let slug = sanitize(base);
    let mut out = prefix.to_owned();
    out.append("/");
    out.append(slug.as_str());
    proof {
        reveal_strlit("/");
        assert(out@.skip(prefix@.len() + 1 as int) =~= slug@);
        assert(out@ =~= prefix@ + seq!['/'] + out@.skip(prefix@.len() + 1 as int));
    }
    out
}

} // verus!
