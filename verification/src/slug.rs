//! The slug sanitizer: a single left-to-right scan that turns free-form text
//! into a canonical branch-name component.
//!
//! The scan maps `/` to `-`, collapses runs of disallowed characters into a
//! single `-` separator, guards `.` so that it never leads, never follows a
//! separator, and never doubles; the ends are then trimmed of `-` and `.`,
//! and a trailing `.lock` is neutralized.

use vstd::prelude::*;
use vstd::string::StrSliceExecFns;

verus! {

use crate::stamp::{today_stamp, is_date_stamp};

/// Whether `c` may appear in a sanitized branch-name component: ASCII
/// alphanumerics, `.`, `_`, `+` and `-`.
pub open spec fn is_allowed_char(c: char) -> bool {
    ||| 48 <= (c as u32) && (c as u32) <= 57
    ||| 65 <= (c as u32) && (c as u32) <= 90
    ||| 97 <= (c as u32) && (c as u32) <= 122
    ||| c == '.'
    ||| c == '_'
    ||| c == '+'
    ||| c == '-'
}

/// The emitted text with a collapsing separator appended: a `-`, unless the
/// text already ends with one.
pub open spec fn with_separator(acc: Seq<char>) -> Seq<char> {
    if acc.len() > 0 && acc.last() == '-' {
        acc
    } else {
        acc.push('-')
    }
}

/// One step of the sanitizing scan: how the emitted text `acc` grows by the
/// next input character `c0`.
pub open spec fn scan_step(acc: Seq<char>, c0: char) -> Seq<char> {
    let c = if c0 == '/' { '-' } else { c0 };
    if !is_allowed_char(c) {
        with_separator(acc)
    } else if c == '.' {
        if acc.len() == 0 || acc.last() == '-' {
            with_separator(acc)
        } else if acc.last() == '.' {
            with_separator(acc.drop_last())
        } else {
            acc.push('.')
        }
    } else {
        acc.push(c)
    }
}

/// The sanitizing scan over a whole input, left to right.
pub open spec fn scan(s: Seq<char>) -> Seq<char>
    decreases s.len(),
{
    if s.len() == 0 {
        Seq::<char>::empty()
    } else {
        scan_step(scan(s.drop_last()), s.last())
    }
}

/// Whether `c` is trimmed from the ends of a scanned result.
pub open spec fn is_trim_char(c: char) -> bool {
    c == '-' || c == '.'
}

/// The text without its leading `-` and `.` characters.
pub open spec fn trim_start(s: Seq<char>) -> Seq<char>
    decreases s.len(),
{
    if s.len() > 0 && is_trim_char(s[0]) {
        trim_start(s.drop_first())
    } else {
        s
    }
}

/// The text without its trailing `-` and `.` characters.
pub open spec fn trim_end(s: Seq<char>) -> Seq<char>
    decreases s.len(),
{
    if s.len() > 0 && is_trim_char(s.last()) {
        trim_end(s.drop_last())
    } else {
        s
    }
}

/// The text without leading or trailing `-` and `.` characters.
pub open spec fn trim_ends(s: Seq<char>) -> Seq<char> {
    trim_end(trim_start(s))
}

/// The reserved suffix of the underlying ref store's lock files.
pub open spec fn lock_suffix() -> Seq<char> {
    seq!['.', 'l', 'o', 'c', 'k']
}

/// Whether the text ends with the literal suffix `.lock`.
pub open spec fn ends_with_lock(s: Seq<char>) -> bool {
    s.len() >= 5 && s.subrange(s.len() - 5, s.len() as int) == lock_suffix()
}

/// A trailing `.lock` is neutralized by turning its dot into a `-`.
pub open spec fn fix_lock_suffix(s: Seq<char>) -> Seq<char> {
    if ends_with_lock(s) {
        s.update(s.len() - 5, '-')
    } else {
        s
    }
}

/// What `sanitize_component` returns: the scanned text, trimmed at both
/// ends, with a trailing `.lock` neutralized.
pub open spec fn sanitize_component_spec(s: Seq<char>) -> Seq<char> {
    fix_lock_suffix(trim_ends(scan(s)))
}

/// Whether `c` may appear in a sanitized branch-name component.
pub fn is_allowed_branch_char(c: char) -> (r: bool)
    ensures
        r == is_allowed_char(c),
{
    let u = c as u32;
    (48 <= u && u <= 57) || (65 <= u && u <= 90) || (97 <= u && u <= 122) || c == '.' || c == '_'
        || c == '+' || c == '-'
}

/// Appends a collapsing separator: a `-`, unless the text already ends with
/// one.
pub fn push_separator(result: &mut Vec<char>)
    ensures
        final(result)@ == with_separator(old(result)@),
{
    let n = result.len();
    if n == 0 || result[n - 1] != '-' {
        result.push('-');
    }
}

/// Sanitizes one branch-name component; total, may return the empty string.
pub fn sanitize_component(name: &str) -> (r: String)
    ensures
        r@ == sanitize_component_spec(name@),
{
    let n = name.unicode_len();
    let mut acc: Vec<char> = Vec::new();
    let mut i: usize = 0;
    while i < n
        invariant
            i <= n,
            n == name@.len(),
            acc@ == scan(name@.take(i as int)),
        decreases n - i,
    {
        let c0 = name.get_char(i);
        let c = if c0 == '/' { '-' } else { c0 };
        if !is_allowed_branch_char(c) {
            push_separator(&mut acc);
        } else if c == '.' {
            let m = acc.len();
            if m == 0 || acc[m - 1] == '-' {
                push_separator(&mut acc);
            } else if acc[m - 1] == '.' {
                acc.pop();
                push_separator(&mut acc);
            } else {
                acc.push('.');
            }
        } else {
            acc.push(c);
        }
        proof {
            assert(name@.take(i + 1).drop_last() =~= name@.take(i as int));
            assert(name@.take(i + 1).last() == name@[i as int]);
        }
        i = i + 1;
    }
    proof {
        assert(name@.take(n as int) =~= name@);
    }

    let mut start: usize = 0;
    proof {
        assert(acc@.skip(0) =~= acc@);
    }
    while start < acc.len() && (acc[start] == '-' || acc[start] == '.')
        invariant
            start <= acc.len(),
            trim_start(acc@) == trim_start(acc@.skip(start as int)),
        decreases acc.len() - start,
    {
        proof {
            assert(acc@.skip(start as int).drop_first() =~= acc@.skip(start + 1));
        }
        start = start + 1;
    }
    proof {
        assert(trim_start(acc@) == acc@.skip(start as int));
    }

    let mut end: usize = acc.len();
    while end > start && (acc[end - 1] == '-' || acc[end - 1] == '.')
        invariant
            start <= end <= acc.len(),
            trim_start(acc@) == acc@.skip(start as int),
            trim_end(acc@.skip(start as int)) == trim_end(acc@.subrange(start as int, end as int)),
        decreases end,
    {
        proof {
            assert(acc@.subrange(start as int, end as int).drop_last() =~= acc@.subrange(
                start as int,
                end - 1,
            ));
        }
        end = end - 1;
    }
    proof {
        assert(trim_ends(acc@) == acc@.subrange(start as int, end as int));
    }

    let mut cleaned: Vec<char> = Vec::new();
    let mut j: usize = start;
    while j < end
        invariant
            start <= j <= end <= acc.len(),
            cleaned@ == acc@.subrange(start as int, j as int),
        decreases end - j,
    {
        cleaned.push(acc[j]);
        proof {
            assert(cleaned@ =~= acc@.subrange(start as int, j + 1));
        }
        j = j + 1;
    }
    proof {
        assert(cleaned@ == trim_ends(scan(name@)));
    }

    let len = cleaned.len();
    if len >= 5 && cleaned[len - 5] == '.' && cleaned[len - 4] == 'l' && cleaned[len - 3] == 'o'
        && cleaned[len - 2] == 'c' && cleaned[len - 1] == 'k' {
        proof {
            assert(cleaned@.subrange(len - 5, len as int) =~= lock_suffix());
        }
        cleaned.set(len - 5, '-');
    } else {
        proof {
            if ends_with_lock(cleaned@) {
                assert(cleaned@.subrange(len - 5, len as int)[0] == cleaned@[len - 5]);
                assert(cleaned@.subrange(len - 5, len as int)[1] == cleaned@[len - 4]);
                assert(cleaned@.subrange(len - 5, len as int)[2] == cleaned@[len - 3]);
                assert(cleaned@.subrange(len - 5, len as int)[3] == cleaned@[len - 2]);
                assert(cleaned@.subrange(len - 5, len as int)[4] == cleaned@[len - 1]);
            }
        }
    }
    crate::text::chars_to_string(&cleaned)
}

/// Every character of the text is from the allowed set.
pub open spec fn all_allowed(s: Seq<char>) -> bool {
    forall|i: int| 0 <= i < s.len() ==> is_allowed_char(#[trigger] s[i])
}

/// No two consecutive dots anywhere in the text.
pub open spec fn no_double_dot(s: Seq<char>) -> bool {
    forall|i: int| 0 <= i && i + 1 < s.len() ==> !(#[trigger] s[i] == '.' && s[i + 1] == '.')
}

/// No dot immediately after a dash anywhere in the text.
pub open spec fn no_dot_after_dash(s: Seq<char>) -> bool {
    forall|i: int| 0 <= i && i + 1 < s.len() ==> !(#[trigger] s[i] == '-' && s[i + 1] == '.')
}

/// A canonical slug: only allowed characters, no leading or trailing `-` or
/// `.`, no doubled dot, no dot right after a dash, and no trailing `.lock`.
pub open spec fn canonical_slug(s: Seq<char>) -> bool {
    &&& all_allowed(s)
    &&& no_double_dot(s)
    &&& no_dot_after_dash(s)
    &&& (s.len() > 0 ==> !is_trim_char(s[0]) && !is_trim_char(s.last()))
    &&& !ends_with_lock(s)
}

/// The scan keeps its emitted text inside the allowed alphabet, free of
/// doubled dots and of dots right after dashes, and never lets it start
/// with a dot.
proof fn lemma_scan_step_inv(acc: Seq<char>, c0: char)
    requires
        all_allowed(acc),
        no_double_dot(acc),
        no_dot_after_dash(acc),
        acc.len() > 0 ==> acc[0] != '.',
    ensures
        all_allowed(scan_step(acc, c0)),
        no_double_dot(scan_step(acc, c0)),
        no_dot_after_dash(scan_step(acc, c0)),
        scan_step(acc, c0).len() > 0 ==> scan_step(acc, c0)[0] != '.',
{
    let c = if c0 == '/' { '-' } else { c0 };
    if !is_allowed_char(c) || acc.len() == 0 || acc.last() == '-' {
        // a separator may be appended to the text as it stands
    } else if c == '.' && acc.last() == '.' {
        let t = acc.drop_last();
        assert(t =~= acc.subrange(0, acc.len() - 1));
        if acc.len() >= 2 {
            // the character before the dropped dot is neither a dot nor a dash
            assert(acc[acc.len() - 2] != '.');
            assert(acc[acc.len() - 2] != '-');
        }
    } else {
        // a plain allowed character, or a dot after an ordinary character,
        // is appended as it is
    }
}

/// The scanned text satisfies the scan's invariants.
proof fn lemma_scan_inv(s: Seq<char>)
    ensures
        all_allowed(scan(s)),
        no_double_dot(scan(s)),
        no_dot_after_dash(scan(s)),
        scan(s).len() > 0 ==> scan(s)[0] != '.',
    decreases s.len(),
{
    if s.len() > 0 {
        lemma_scan_inv(s.drop_last());
        lemma_scan_step_inv(scan(s.drop_last()), s.last());
    }
}

/// The scan's pairwise invariants carry over to any contiguous piece.
proof fn lemma_preds_subrange(s: Seq<char>, a: int, b: int)
    requires
        0 <= a <= b <= s.len(),
        all_allowed(s),
        no_double_dot(s),
        no_dot_after_dash(s),
    ensures
        all_allowed(s.subrange(a, b)),
        no_double_dot(s.subrange(a, b)),
        no_dot_after_dash(s.subrange(a, b)),
{
    let t = s.subrange(a, b);
    assert forall|i: int| 0 <= i < t.len() implies is_allowed_char(#[trigger] t[i]) by {
        assert(t[i] == s[a + i]);
    }
    assert forall|i: int| 0 <= i && i + 1 < t.len() implies !(#[trigger] t[i] == '.' && t[i + 1]
        == '.') by {
        assert(t[i] == s[a + i]);
        assert(t[i + 1] == s[a + i + 1]);
    }
    assert forall|i: int| 0 <= i && i + 1 < t.len() implies !(#[trigger] t[i] == '-' && t[i + 1]
        == '.') by {
        assert(t[i] == s[a + i]);
        assert(t[i + 1] == s[a + i + 1]);
    }
}

/// Trimming the front keeps the scan's invariants and leaves no leading
/// trim character.
proof fn lemma_trim_start(s: Seq<char>)
    requires
        all_allowed(s),
        no_double_dot(s),
        no_dot_after_dash(s),
    ensures
        all_allowed(trim_start(s)),
        no_double_dot(trim_start(s)),
        no_dot_after_dash(trim_start(s)),
        trim_start(s).len() > 0 ==> !is_trim_char(trim_start(s)[0]),
    decreases s.len(),
{
    if s.len() > 0 && is_trim_char(s[0]) {
        assert(s.drop_first() =~= s.subrange(1, s.len() as int));
        lemma_preds_subrange(s, 1, s.len() as int);
        lemma_trim_start(s.drop_first());
    }
}

/// Trimming the back keeps the scan's invariants and the first character,
/// and leaves no trailing trim character.
proof fn lemma_trim_end(s: Seq<char>)
    requires
        all_allowed(s),
        no_double_dot(s),
        no_dot_after_dash(s),
    ensures
        all_allowed(trim_end(s)),
        no_double_dot(trim_end(s)),
        no_dot_after_dash(trim_end(s)),
        trim_end(s).len() > 0 ==> !is_trim_char(trim_end(s).last()),
        trim_end(s).len() > 0 ==> trim_end(s)[0] == s[0],
    decreases s.len(),
{
    if s.len() > 0 && is_trim_char(s.last()) {
        assert(s.drop_last() =~= s.subrange(0, s.len() - 1));
        lemma_preds_subrange(s, 0, s.len() - 1);
        lemma_trim_end(s.drop_last());
    }
}

/// The trimmed text keeps the scan's invariants and has no trim character
/// at either end.
proof fn lemma_trim_ends(s: Seq<char>)
    requires
        all_allowed(s),
        no_double_dot(s),
        no_dot_after_dash(s),
    ensures
        all_allowed(trim_ends(s)),
        no_double_dot(trim_ends(s)),
        no_dot_after_dash(trim_ends(s)),
        trim_ends(s).len() > 0 ==> !is_trim_char(trim_ends(s)[0]) && !is_trim_char(
            trim_ends(s).last(),
        ),
{
    lemma_trim_start(s);
    lemma_trim_end(trim_start(s));
}

/// Neutralizing a trailing `.lock` yields a canonical slug.
proof fn lemma_fix_lock(s: Seq<char>)
    requires
        all_allowed(s),
        no_double_dot(s),
        no_dot_after_dash(s),
        s.len() > 0 ==> !is_trim_char(s[0]) && !is_trim_char(s.last()),
    ensures
        canonical_slug(fix_lock_suffix(s)),
{
    if ends_with_lock(s) {
        let p = s.len() - 5;
        assert(s.subrange(p, s.len() as int)[0] == s[p]);
        assert(s.subrange(p, s.len() as int)[1] == s[p + 1]);
        assert(s[p] == '.');
        assert(s[p + 1] == 'l');
        // a dot cannot lead, so the replaced position is not the first
        assert(p >= 1);
        let t = s.update(p, '-');
        assert(t.len() == s.len());
        assert forall|i: int| 0 <= i < t.len() implies is_allowed_char(#[trigger] t[i]) by {
            if i != p {
                assert(t[i] == s[i]);
            }
        }
        assert forall|i: int| 0 <= i && i + 1 < t.len() implies !(#[trigger] t[i] == '.' && t[i + 1]
            == '.') by {
            if i != p && i + 1 != p {
                assert(t[i] == s[i]);
                assert(t[i + 1] == s[i + 1]);
            }
        }
        assert forall|i: int| 0 <= i && i + 1 < t.len() implies !(#[trigger] t[i] == '-' && t[i + 1]
            == '.') by {
            if i == p {
                assert(t[i + 1] == s[p + 1]);
            } else if i + 1 == p {
                assert(t[i + 1] == '-');
            } else {
                assert(t[i] == s[i]);
                assert(t[i + 1] == s[i + 1]);
            }
        }
        assert(t[0] == s[0]);
        assert(t.last() == s.last());
        assert(!ends_with_lock(t)) by {
            if ends_with_lock(t) {
                assert(t.subrange(t.len() - 5, t.len() as int)[0] == t[p]);
            }
        }
    }
}

/// Whatever the input, the sanitized component is a canonical slug: it
/// holds only characters from the allowed set, does not start or end with
/// `-` or `.`, holds no doubled dot and no dot right after a dash, and does
/// not end with the literal suffix `.lock`.
pub proof fn lemma_sanitize_component_canonical(s: Seq<char>)
    ensures
        canonical_slug(sanitize_component_spec(s)),
{
    lemma_scan_inv(s);
    lemma_trim_ends(scan(s));
    lemma_fix_lock(trim_ends(scan(s)));
}

/// The scan leaves a text alone when it already satisfies the scan's
/// invariants and does not start with a dot.
proof fn lemma_scan_fixed(s: Seq<char>)
    requires
        all_allowed(s),
        no_double_dot(s),
        no_dot_after_dash(s),
        s.len() > 0 ==> s[0] != '.',
    ensures
        scan(s) == s,
    decreases s.len(),
{
    if s.len() > 0 {
        let t = s.drop_last();
        let c = s.last();
        assert(t =~= s.subrange(0, s.len() - 1));
        lemma_preds_subrange(s, 0, s.len() - 1);
        lemma_scan_fixed(t);
        assert(is_allowed_char(c));
        assert(!is_allowed_char('/'));
        if c == '.' {
            // a leading dot is excluded, so a dot has a predecessor, and it
            // is neither a dash nor another dot
            assert(s.len() >= 2);
            assert(t.last() == s[s.len() - 2]);
            assert(s[s.len() - 2] != '-');
            assert(s[s.len() - 2] != '.');
            assert(scan_step(t, c) =~= s);
        } else {
            assert(scan_step(t, c) =~= s);
        }
    } else {
        assert(scan(s) =~= s);
    }
}

/// Sanitizing leaves a canonical slug unchanged.
pub proof fn lemma_canonical_fixed(s: Seq<char>)
    requires
        canonical_slug(s),
    ensures
        sanitize_component_spec(s) == s,
{
    lemma_scan_fixed(s);
    assert(trim_start(s) == s);
    assert(trim_end(s) == s);
}

/// Sanitizing a component is idempotent: a second pass returns the first
/// pass's result unchanged.
pub proof fn lemma_sanitize_component_idempotent(s: Seq<char>)
    ensures
        sanitize_component_spec(sanitize_component_spec(s)) == sanitize_component_spec(s),
{
    lemma_sanitize_component_canonical(s);
    lemma_canonical_fixed(sanitize_component_spec(s));
}

/// A date stamp is already a canonical slug, so sanitizing leaves it
/// unchanged; with idempotence this makes the full fallback-aware
/// sanitizer a fixed point on everything it returns.
pub proof fn lemma_date_stamp_fixed(s: Seq<char>)
    requires
        is_date_stamp(s),
    ensures
        sanitize_component_spec(s) == s,
{
    assert forall|i: int| 0 <= i < s.len() implies is_allowed_char(#[trigger] s[i]) by {
        assert(crate::text::is_digit(s[i]));
    }
    assert(!ends_with_lock(s)) by {
        if ends_with_lock(s) {
            assert(s.subrange(s.len() - 5, s.len() as int)[0] == s[1]);
            assert(crate::text::is_digit(s[1]));
        }
    }
    assert(canonical_slug(s));
    lemma_canonical_fixed(s);
}

/// Sanitizes a branch name, falling back to today's date stamp when the
/// sanitized text comes out empty.
pub fn sanitize(name: &str) -> (r: String)
    ensures
        sanitize_component_spec(name@).len() > 0 ==> r@ == sanitize_component_spec(name@),
        sanitize_component_spec(name@).len() == 0 ==> is_date_stamp(r@),
        r@.len() > 0,
{
    let s = sanitize_component(name);
    if s.as_str().is_empty() {
        today_stamp()
    } else {
        s
    }
}

} // verus!
