//! Parsing of the version-control tool's listing output: local branch names
//! come one per line; remote listings carry an object id, a tab, and a full
//! ref name on each line.

use vstd::prelude::*;
use vstd::string::StrSliceExecFns;

verus! {

/// Whether `c` is blank space inside a listing line.
pub open spec fn is_space(c: char) -> bool {
    c == ' ' || c == '\t' || c == '\r'
}

/// The index of the first newline at or after `j`, or the length.
pub open spec fn first_nl(s: Seq<char>, j: int) -> int
    decreases s.len() - j,
{
    if j < 0 || j >= s.len() {
        s.len() as int
    } else if s[j] == '\n' {
        j
    } else {
        first_nl(s, j + 1)
    }
}

/// The first newline comes no earlier than `j` and no later than the end.
proof fn lemma_first_nl_bounds(s: Seq<char>, j: int)
    requires
        0 <= j <= s.len(),
    ensures
        j <= first_nl(s, j) <= s.len(),
    decreases s.len() - j,
{
    if j < s.len() && s[j] != '\n' {
        lemma_first_nl_bounds(s, j + 1);
    }
}

/// The text split at newlines, the separators dropped.
pub open spec fn split_lines(s: Seq<char>) -> Seq<Seq<char>>
    decreases s.len(),
    via split_lines_decreases
{
    if s.len() == 0 {
        Seq::<Seq<char>>::empty()
    } else {
        let i = first_nl(s, 0);
        if i == s.len() {
            seq![s]
        } else {
            seq![s.take(i)] + split_lines(s.skip(i + 1))
        }
    }
}

#[via_fn]
proof fn split_lines_decreases(s: Seq<char>) {
    if s.len() > 0 {
        lemma_first_nl_bounds(s, 0);
    }
}

/// The index of the first non-space character at or after `j`, or the
/// length.
pub open spec fn skip_spaces(s: Seq<char>, j: int) -> int
    decreases s.len() - j,
{
    if j < 0 || j >= s.len() {
        s.len() as int
    } else if is_space(s[j]) {
        skip_spaces(s, j + 1)
    } else {
        j
    }
}

/// The index of the first space at or after `j`, or the length.
pub open spec fn skip_token(s: Seq<char>, j: int) -> int
    decreases s.len() - j,
{
    if j < 0 || j >= s.len() {
        s.len() as int
    } else if !is_space(s[j]) {
        skip_token(s, j + 1)
    } else {
        j
    }
}

/// The line without leading and trailing blank space.
pub open spec fn trim_line(s: Seq<char>) -> Seq<char> {
    let a = skip_spaces(s, 0);
    if a == s.len() {
        Seq::<char>::empty()
    } else {
        let b = last_non_space(s);
        s.subrange(a, b + 1)
    }
}

/// The index of the last non-space character, assuming one exists.
pub open spec fn last_non_space(s: Seq<char>) -> int
    decreases s.len(),
{
    if s.len() == 0 {
        -1
    } else if !is_space(s.last()) {
        s.len() - 1
    } else {
        last_non_space(s.drop_last())
    }
}

/// The lines of a local listing, trimmed, the blank ones dropped.
pub open spec fn local_names(lines: Seq<Seq<char>>) -> Seq<Seq<char>>
    decreases lines.len(),
{
    if lines.len() == 0 {
        Seq::<Seq<char>>::empty()
    } else {
        let head = trim_line(lines[0]);
        let rest = local_names(lines.drop_first());
        if head.len() > 0 {
            seq![head] + rest
        } else {
            rest
        }
    }
}

/// What parsing a local listing returns: each line a short branch name,
/// trimmed, blank lines dropped.
pub open spec fn parse_local_spec(s: Seq<char>) -> Seq<Seq<char>> {
    local_names(split_lines(s))
}

/// The second blank-separated token of the line, if the line has one.
pub open spec fn second_token(s: Seq<char>) -> Option<Seq<char>> {
    let a1 = skip_spaces(s, 0);
    let b1 = skip_token(s, a1);
    let a2 = skip_spaces(s, b1);
    let b2 = skip_token(s, a2);
    if a2 == b2 {
        None
    } else {
        Some(s.subrange(a2, b2))
    }
}

/// The full ref prefix that marks a branch head.
pub open spec fn heads_prefix() -> Seq<char> {
    seq!['r', 'e', 'f', 's', '/', 'h', 'e', 'a', 'd', 's', '/']
}

/// The short name of a remote listing line: the ref name is its second
/// token, and only refs under the branch-head prefix count.
pub open spec fn remote_name_of_line(s: Seq<char>) -> Option<Seq<char>> {
    match second_token(s) {
        Some(tok) => if tok.len() >= 11 && tok.take(11) == heads_prefix() {
            Some(tok.skip(11))
        } else {
            None
        },
        None => None,
    }
}

/// The short names of a remote listing's lines, in order.
pub open spec fn remote_names(lines: Seq<Seq<char>>) -> Seq<Seq<char>>
    decreases lines.len(),
{
    if lines.len() == 0 {
        Seq::<Seq<char>>::empty()
    } else {
        let rest = remote_names(lines.drop_first());
        match remote_name_of_line(lines[0]) {
            Some(short) => seq![short] + rest,
            None => rest,
        }
    }
}

/// What parsing a remote listing returns.
pub open spec fn parse_remote_spec(s: Seq<char>) -> Seq<Seq<char>> {
    remote_names(split_lines(s))
}

/// The views of a vector of names.
pub open spec fn views_of(v: Seq<String>) -> Seq<Seq<char>> {
    v.map_values(|x: String| x@)
}

/// Whether `c` is blank space inside a listing line.
fn is_space_char(c: char) -> (r: bool)
    ensures
        r == is_space(c),
{
    c == ' ' || c == '\t' || c == '\r'
}

/// Splits the listing into its lines.
fn split_into_lines(out: &str) -> (r: Vec<Vec<char>>)
    ensures
        r@.map_values(|l: Vec<char>| l@) == split_lines(out@),
{
    let n = out.unicode_len();
    let mut done: Vec<Vec<char>> = Vec::new();
    let mut line: Vec<char> = Vec::new();
    let mut i: usize = 0;
    proof {
        assert(line@ + out@.skip(0) =~= out@);
        assert(done@.map_values(|l: Vec<char>| l@) =~= Seq::<Seq<char>>::empty());
        assert(done@.map_values(|l: Vec<char>| l@) + split_lines(out@) =~= split_lines(out@));
    }
    while i < n
        invariant
            i <= n,
            n == out@.len(),
            forall|k: int| 0 <= k < line@.len() ==> line@[k] != '\n',
            split_lines(out@) == done@.map_values(|l: Vec<char>| l@) + split_lines(
                line@ + out@.skip(i as int),
            ),
        decreases n - i,
    {
        let ghost done0 = done@;
        let ghost line0 = line@;
        let ghost rem0 = line@ + out@.skip(i as int);
        let c = out.get_char(i);
        if c == '\n' {
            done.push(line);
            line = Vec::new();
            proof {
                let p = line0.len() as int;
                assert(rem0[p] == out@[i as int]);
                lemma_first_nl_of_line(rem0, p);
                assert(rem0.take(p) =~= line0);
                assert(rem0.skip(p + 1) =~= out@.skip(i + 1));
                assert(split_lines(rem0) == seq![line0] + split_lines(out@.skip(i + 1)));
                assert(done@.map_values(|l: Vec<char>| l@) =~= done0.map_values(|l: Vec<char>| l@)
                    + seq![line0]);
                assert(done0.map_values(|l: Vec<char>| l@) + (seq![line0] + split_lines(
                    out@.skip(i + 1),
                )) =~= done@.map_values(|l: Vec<char>| l@) + split_lines(out@.skip(i + 1)));
                assert(line@ + out@.skip(i + 1) =~= out@.skip(i + 1));
            }
        } else {
            line.push(c);
            proof {
                assert(line@ + out@.skip(i + 1) =~= rem0);
            }
        }
        i = i + 1;
    }
    if line.len() > 0 {
        proof {
            assert(line@ + out@.skip(i as int) =~= line@);
            lemma_first_nl_none(line@);
            assert(split_lines(line@) == seq![line@]);
            assert((done@ + seq![line]).map_values(|l: Vec<char>| l@) =~= done@.map_values(
                |l: Vec<char>| l@,
            ) + seq![line@]);
        }
        done.push(line);
    } else {
        proof {
            assert(line@ + out@.skip(i as int) =~= Seq::<char>::empty());
            assert(done@.map_values(|l: Vec<char>| l@) + split_lines(Seq::<char>::empty())
                =~= done@.map_values(|l: Vec<char>| l@));
        }
    }
    done
}

/// The line without its leading and trailing blank space.
fn trim_line_vec(line: &Vec<char>) -> (r: Vec<char>)
    ensures
        r@ == trim_line(line@),
{
    let m = line.len();
    let mut a: usize = 0;
    while a < m && is_space_char(line[a])
        invariant
            a <= m,
            m == line@.len(),
            skip_spaces(line@, 0) == skip_spaces(line@, a as int),
        decreases m - a,
    {
        a = a + 1;
    }
    if a == m {
        let r: Vec<char> = Vec::new();
        proof {
            assert(r@ =~= trim_line(line@));
        }
        return r;
    }
    let mut b: usize = m;
    proof {
        assert(line@.take(m as int) =~= line@);
    }
    while b > a && is_space_char(line[b - 1])
        invariant
            a < b <= m,
            m == line@.len(),
            a == skip_spaces(line@, 0),
            !is_space(line@[a as int]),
            last_non_space(line@) == last_non_space(line@.take(b as int)),
        decreases b,
    {
        proof {
            assert(line@.take(b as int).drop_last() =~= line@.take(b - 1));
        }
        b = b - 1;
    }
    proof {
        if b > a {
            assert(line@.take(b as int).last() == line@[b - 1]);
        } else {
            assert(b == a);
            assert(line@.take(b as int).last() == line@[a as int]);
        }
        assert(last_non_space(line@) == b - 1);
    }
    let mut r: Vec<char> = Vec::new();
    let mut j: usize = a;
    while j < b
        invariant
            a <= j <= b <= m,
            m == line@.len(),
            r@ == line@.subrange(a as int, j as int),
        decreases b - j,
    {
        r.push(line[j]);
        proof {
            assert(r@ =~= line@.subrange(a as int, j + 1));
        }
        j = j + 1;
    }
    r
}

/// The first non-space position at or after `from`.
fn scan_spaces(line: &Vec<char>, from: usize) -> (r: usize)
    requires
        from <= line@.len(),
    ensures
        r == skip_spaces(line@, from as int),
        from <= r <= line@.len(),
{
    let mut j = from;
    while j < line.len() && is_space_char(line[j])
        invariant
            from <= j <= line@.len(),
            skip_spaces(line@, from as int) == skip_spaces(line@, j as int),
        decreases line@.len() - j,
    {
        j = j + 1;
    }
    j
}

/// The first space position at or after `from`.
fn scan_token(line: &Vec<char>, from: usize) -> (r: usize)
    requires
        from <= line@.len(),
    ensures
        r == skip_token(line@, from as int),
        from <= r <= line@.len(),
{
    let mut j = from;
    while j < line.len() && !is_space_char(line[j])
        invariant
            from <= j <= line@.len(),
            skip_token(line@, from as int) == skip_token(line@, j as int),
        decreases line@.len() - j,
    {
        j = j + 1;
    }
    j
}

/// The short branch name carried by one remote listing line, if any.
fn remote_name_of_line_vec(line: &Vec<char>) -> (r: Option<Vec<char>>)
    ensures
        match r {
            Some(v) => remote_name_of_line(line@) == Some(v@),
            None => remote_name_of_line(line@) is None,
        },
{
    let a1 = scan_spaces(line, 0);
    let b1 = scan_token(line, a1);
    let a2 = scan_spaces(line, b1);
    let b2 = scan_token(line, a2);
    if a2 == b2 {
        return None;
    }
    let ghost tok = line@.subrange(a2 as int, b2 as int);
    if b2 - a2 >= 11 && line[a2] == 'r' && line[a2 + 1] == 'e' && line[a2 + 2] == 'f' && line[a2
        + 3] == 's' && line[a2 + 4] == '/' && line[a2 + 5] == 'h' && line[a2 + 6] == 'e' && line[a2
        + 7] == 'a' && line[a2 + 8] == 'd' && line[a2 + 9] == 's' && line[a2 + 10] == '/' {
        proof {
            assert(tok.take(11) =~= heads_prefix());
        }
        let mut v: Vec<char> = Vec::new();
        let mut j: usize = a2 + 11;
        while j < b2
            invariant
                a2 + 11 <= j <= b2 <= line@.len(),
                v@ == line@.subrange(a2 + 11, j as int),
            decreases b2 - j,
        {
            v.push(line[j]);
            proof {
                assert(v@ =~= line@.subrange(a2 + 11, j + 1));
            }
            j = j + 1;
        }
        proof {
            assert(v@ =~= tok.skip(11));
        }
        Some(v)
    } else {
        proof {
            if tok.len() >= 11 && tok.take(11) == heads_prefix() {
                assert(tok.take(11)[0] == line@[a2 as int] && heads_prefix()[0] == 'r');
                assert(tok.take(11)[1] == line@[a2 + 1] && heads_prefix()[1] == 'e');
                assert(tok.take(11)[2] == line@[a2 + 2] && heads_prefix()[2] == 'f');
                assert(tok.take(11)[3] == line@[a2 + 3] && heads_prefix()[3] == 's');
                assert(tok.take(11)[4] == line@[a2 + 4] && heads_prefix()[4] == '/');
                assert(tok.take(11)[5] == line@[a2 + 5] && heads_prefix()[5] == 'h');
                assert(tok.take(11)[6] == line@[a2 + 6] && heads_prefix()[6] == 'e');
                assert(tok.take(11)[7] == line@[a2 + 7] && heads_prefix()[7] == 'a');
                assert(tok.take(11)[8] == line@[a2 + 8] && heads_prefix()[8] == 'd');
                assert(tok.take(11)[9] == line@[a2 + 9] && heads_prefix()[9] == 's');
                assert(tok.take(11)[10] == line@[a2 + 10] && heads_prefix()[10] == '/');
            }
        }
        None
    }
}

/// Parses a local listing: one short branch name per line, trimmed, blank
/// lines dropped.
pub fn parse_local_branches(out: &str) -> (r: Vec<String>)
    ensures
        views_of(r@) == parse_local_spec(out@),
{
    let lines = split_into_lines(out);
    let ghost ls = lines@.map_values(|l: Vec<char>| l@);
    let mut res: Vec<String> = Vec::new();
    let mut k: usize = 0;
    proof {
        assert(ls.skip(0) =~= ls);
        assert(views_of(res@) =~= Seq::<Seq<char>>::empty());
        assert(views_of(res@) + local_names(ls) =~= local_names(ls));
    }
    while k < lines.len()
        invariant
            k <= lines@.len(),
            ls == lines@.map_values(|l: Vec<char>| l@),
            local_names(ls) == views_of(res@) + local_names(ls.skip(k as int)),
        decreases lines@.len() - k,
    {
        let ghost res0 = res@;
        let t = trim_line_vec(&lines[k]);
        proof {
            assert(ls.skip(k as int)[0] == ls[k as int]);
            assert(ls.skip(k as int).drop_first() =~= ls.skip(k + 1));
        }
        if t.len() > 0 {
            let s = crate::text::chars_to_string(&t);
            res.push(s);
            proof {
                assert(views_of(res@) =~= views_of(res0) + seq![t@]);
                assert(views_of(res0) + (seq![t@] + local_names(ls.skip(k + 1))) =~= views_of(res@)
                    + local_names(ls.skip(k + 1)));
            }
        }
        k = k + 1;
    }
    proof {
        assert(local_names(ls.skip(lines@.len() as int)) =~= Seq::<Seq<char>>::empty());
        assert(views_of(res@) + Seq::<Seq<char>>::empty() =~= views_of(res@));
    }
    res
}

/// Parses a remote listing: the ref name is each line's second token, and
/// refs under the branch-head prefix yield their short name.
pub fn parse_remote_branches(out: &str) -> (r: Vec<String>)
    ensures
        views_of(r@) == parse_remote_spec(out@),
{
    let lines = split_into_lines(out);
    let ghost ls = lines@.map_values(|l: Vec<char>| l@);
    let mut res: Vec<String> = Vec::new();
    let mut k: usize = 0;
    proof {
        assert(ls.skip(0) =~= ls);
        assert(views_of(res@) =~= Seq::<Seq<char>>::empty());
        assert(views_of(res@) + remote_names(ls) =~= remote_names(ls));
    }
    while k < lines.len()
        invariant
            k <= lines@.len(),
            ls == lines@.map_values(|l: Vec<char>| l@),
            remote_names(ls) == views_of(res@) + remote_names(ls.skip(k as int)),
        decreases lines@.len() - k,
    {
        let ghost res0 = res@;
        proof {
            assert(ls.skip(k as int)[0] == ls[k as int]);
            assert(ls.skip(k as int).drop_first() =~= ls.skip(k + 1));
        }
        match remote_name_of_line_vec(&lines[k]) {
            Some(short) => {
                let s = crate::text::chars_to_string(&short);
                res.push(s);
                proof {
                    assert(views_of(res@) =~= views_of(res0) + seq![short@]);
                    assert(views_of(res0) + (seq![short@] + remote_names(ls.skip(k + 1)))
                        =~= views_of(res@) + remote_names(ls.skip(k + 1)));
                }
            },
            None => {},
        }
        k = k + 1;
    }
    proof {
        assert(remote_names(ls.skip(lines@.len() as int)) =~= Seq::<Seq<char>>::empty());
        assert(views_of(res@) + Seq::<Seq<char>>::empty() =~= views_of(res@));
    }
    res
}

/// A text that starts with `p` newline-free characters and then a newline
/// finds its first newline at `p`.
proof fn lemma_first_nl_of_line(s: Seq<char>, p: int)
    requires
        0 <= p < s.len(),
        s[p] == '\n',
        forall|k: int| 0 <= k < p ==> s[k] != '\n',
    ensures
        first_nl(s, 0) == p,
{
    lemma_first_nl_from(s, 0, p);
}

/// Walking from `j` over newline-free characters reaches the newline at
/// `p`.
proof fn lemma_first_nl_from(s: Seq<char>, j: int, p: int)
    requires
        0 <= j <= p < s.len(),
        s[p] == '\n',
        forall|k: int| j <= k < p ==> s[k] != '\n',
    ensures
        first_nl(s, j) == p,
    decreases p - j,
{
    if j < p {
        lemma_first_nl_from(s, j + 1, p);
    }
}

/// A newline-free text has no first newline before its end.
proof fn lemma_first_nl_none(s: Seq<char>)
    ensures
        (forall|k: int| 0 <= k < s.len() ==> s[k] != '\n') ==> first_nl(s, 0) == s.len(),
{
    lemma_first_nl_none_from(s, 0);
}

/// Walking from `j` over newline-free characters reaches the end.
proof fn lemma_first_nl_none_from(s: Seq<char>, j: int)
    requires
        0 <= j <= s.len(),
    ensures
        (forall|k: int| j <= k < s.len() ==> s[k] != '\n') ==> first_nl(s, j) == s.len(),
    decreases s.len() - j,
{
    if j < s.len() {
        lemma_first_nl_none_from(s, j + 1);
    }
}

} // verus!
