//! The collision resolver: picking the first free name in the deterministic
//! probe sequence `candidate`, `candidate_2`, ..., `candidate_100`.

use vstd::prelude::*;

verus! {

use crate::errors::BranchNameError;
use crate::text::{dec_seq, chars_to_string, push_dec};

/// Whether `name` occurs in the snapshot of existing names.
pub open spec fn name_taken(existing: Seq<String>, name: Seq<char>) -> bool {
    exists|k: int| 0 <= k < existing.len() && existing[k]@ == name
}

/// The candidate with the numeric probe suffix `i`: `candidate` + `_` + `i`.
pub open spec fn with_probe_suffix(candidate: Seq<char>, i: int) -> Seq<char> {
    candidate + seq!['_'] + dec_seq(i)
}

/// The first free probe of `candidate` whose suffix is at or above `i`,
/// with `100` the last suffix ever probed.
pub open spec fn first_free_from(candidate: Seq<char>, existing: Seq<String>, i: int) -> Option<
    Seq<char>,
>
    decreases 101 - i,
{
    if i > 100 {
        None
    } else if !name_taken(existing, with_probe_suffix(candidate, i)) {
        Some(with_probe_suffix(candidate, i))
    } else {
        first_free_from(candidate, existing, i + 1)
    }
}

/// The name the resolver picks: the candidate itself when free, else the
/// first free numbered variant `candidate_2` ... `candidate_100`, else
/// nothing.
pub open spec fn first_free(candidate: Seq<char>, existing: Seq<String>) -> Option<Seq<char>> {
    if !name_taken(existing, candidate) {
        Some(candidate)
    } else {
        first_free_from(candidate, existing, 2)
    }
}

/// Whether `name` occurs in the snapshot.
fn contains_name(existing: &Vec<String>, name: &String) -> (r: bool)
    ensures
        r == name_taken(existing@, name@),
{
    let mut k: usize = 0;
    while k < existing.len()
        invariant
            k <= existing@.len(),
            forall|j: int| 0 <= j < k ==> existing@[j]@ != name@,
        decreases existing@.len() - k,
    {
        if existing[k].eq(name) {
            return true;
        }
        k = k + 1;
    }
    false
}

/// Merges the snapshot of local names with the optional snapshot of remote
/// names into one snapshot of existing names.
pub fn collect_existing_branches(local: Vec<String>, remote: Option<Vec<String>>) -> (r: Vec<
    String,
>)
    ensures
        match remote {
            Some(rem) => r@ == local@ + rem@,
            None => r@ == local@,
        },
{
    let mut out = local;
    match remote {
        Some(mut rem) => {
            out.append(&mut rem);
        },
        None => {},
    }
    out
}

/// Picks the first available name: the candidate itself when it is not
/// taken, else the candidate with the smallest free probe suffix `_2` ...
/// `_100`; when every probe is taken, the resolver reports exhaustion.
pub fn pick_available_name(candidate: &str, existing: &Vec<String>) -> (r: Result<
    String,
    BranchNameError,
>)
    ensures
        match r {
            Ok(name) => first_free(candidate@, existing@) == Some(name@),
            Err(e) => {
                &&& first_free(candidate@, existing@) is None
                &&& e == BranchNameError::SuffixesExhausted
            },
        },
{
    let cand = candidate.to_owned();
    if !contains_name(existing, &cand) {
        return Ok(cand);
    }
    let mut i: u32 = 2;
    while i <= 100
        invariant
            2 <= i <= 101,
            name_taken(existing@, candidate@),
            first_free_from(candidate@, existing@, 2) == first_free_from(
                candidate@,
                existing@,
                i as int,
            ),
        decreases 101 - i,
    {
        let mut suffix: Vec<char> = Vec::new();
        push_dec(i, &mut suffix);
        let digits = chars_to_string(&suffix);
        let mut probe = candidate.to_owned();
        probe.append("_");
        probe.append(digits.as_str());
        proof {
            reveal_strlit("_");
            assert(probe@ =~= with_probe_suffix(candidate@, i as int));
        }
        if !contains_name(existing, &probe) {
            return Ok(probe);
        }
        i = i + 1;
    }
    Err(BranchNameError::SuffixesExhausted)
}

} // verus!
