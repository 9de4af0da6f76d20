//! Verified building blocks for line- and substring-oriented text scanning.
//!
//! All executable functions here are specified against recursive spec
//! functions over `Seq<char>`; the rest of the library states its contracts
//! in terms of these spec functions.

use vstd::prelude::*;
use vstd::string::*;

verus! {

/// The characters that `str::trim` and `str::split_whitespace` treat as
/// whitespace (the Unicode `White_Space` property).
pub open spec fn is_space(c: char) -> bool {
    c == ' ' || c == '\t' || c == '\n' || c == '\r' || c == '\u{b}' || c == '\u{c}'
        || c == '\u{85}' || c == '\u{a0}' || c == '\u{1680}'
        || ('\u{2000}' <= c && c <= '\u{200a}')
        || c == '\u{2028}' || c == '\u{2029}' || c == '\u{202f}' || c == '\u{205f}'
        || c == '\u{3000}'
}

pub fn is_space_char(c: char) -> (r: bool)
    ensures
        r == is_space(c),
{
    c == ' ' || c == '\t' || c == '\n' || c == '\r' || c == '\u{b}' || c == '\u{c}'
        || c == '\u{85}' || c == '\u{a0}' || c == '\u{1680}'
        || ('\u{2000}' <= c && c <= '\u{200a}')
        || c == '\u{2028}' || c == '\u{2029}' || c == '\u{202f}' || c == '\u{205f}'
        || c == '\u{3000}'
}

/// `pat` occurs in `s` starting at index `i`.
pub open spec fn match_at(s: Seq<char>, pat: Seq<char>, i: int) -> bool {
    0 <= i && i + pat.len() <= s.len() && s.subrange(i, i + pat.len()) == pat
}

/// Index of the first occurrence of `pat` in `s` at or after `i`, or -1.
pub open spec fn find_from(s: Seq<char>, pat: Seq<char>, i: int) -> int
    decreases s.len() + 1 - i,
{
    if i < 0 || i + pat.len() > s.len() {
        -1
    } else if s.subrange(i, i + pat.len()) == pat {
        i
    } else {
        find_from(s, pat, i + 1)
    }
}

pub open spec fn find_sub(s: Seq<char>, pat: Seq<char>) -> int {
    find_from(s, pat, 0)
}

pub open spec fn contains_sub(s: Seq<char>, pat: Seq<char>) -> bool {
    find_sub(s, pat) >= 0
}

pub open spec fn starts_with(s: Seq<char>, pat: Seq<char>) -> bool {
    pat.len() <= s.len() && s.subrange(0, pat.len() as int) == pat
}

/// `find_from` returns the least match position at or after `i`, or -1 when
/// there is none.
pub proof fn lemma_find_from(s: Seq<char>, pat: Seq<char>, i: int)
    requires
        0 <= i,
    ensures
        find_from(s, pat, i) == -1 || find_from(s, pat, i) >= 0,
        find_from(s, pat, i) == -1 ==> (forall|j: int| i <= j ==> !match_at(s, pat, j)),
        find_from(s, pat, i) >= 0 ==> i <= find_from(s, pat, i)
            && match_at(s, pat, find_from(s, pat, i))
            && (forall|j: int| i <= j < find_from(s, pat, i) ==> !match_at(s, pat, j)),
    decreases s.len() + 1 - i,
{
    if i + pat.len() > s.len() {
        assert(forall|j: int| i <= j ==> !match_at(s, pat, j));
    } else if s.subrange(i, i + pat.len()) == pat {
    } else {
        lemma_find_from(s, pat, i + 1);
        assert(!match_at(s, pat, i));
    }
}

/// Index of the first occurrence of character `c` in `s` at or after `i`, or -1.
pub open spec fn find_char_from(s: Seq<char>, c: char, i: int) -> int
    decreases s.len() - i,
{
    if i < 0 || i >= s.len() {
        -1
    } else if s[i] == c {
        i
    } else {
        find_char_from(s, c, i + 1)
    }
}

pub proof fn lemma_find_char_from(s: Seq<char>, c: char, i: int)
    requires
        0 <= i,
    ensures
        find_char_from(s, c, i) == -1 || find_char_from(s, c, i) >= 0,
        find_char_from(s, c, i) == -1 ==> (forall|j: int| i <= j < s.len() ==> s[j] != c),
        find_char_from(s, c, i) >= 0 ==> i <= find_char_from(s, c, i) < s.len()
            && s[find_char_from(s, c, i)] == c
            && (forall|j: int| i <= j < find_char_from(s, c, i) ==> s[j] != c),
    decreases s.len() - i,
{
    if i >= s.len() {
    } else if s[i] == c {
    } else {
        lemma_find_char_from(s, c, i + 1);
    }
}

/// First occurrence of `pat` in `s` at or after `from`, as an exec search.
pub fn find(s: &str, pat: &str, from: usize) -> (r: Option<usize>)
    requires
        from <= s@.len(),
    ensures
        match r {
            Some(k) => k == find_from(s@, pat@, from as int),
            None => find_from(s@, pat@, from as int) == -1,
        },
{
    let s_len = s.unicode_len();
    let pat_len = pat.unicode_len();
    if pat_len > s_len || from > s_len - pat_len {
        proof {
            lemma_find_from(s@, pat@, from as int);
            assert(forall|j: int| from <= j ==> !match_at(s@, pat@, j));
            if find_from(s@, pat@, from as int) >= 0 {
                assert(match_at(s@, pat@, find_from(s@, pat@, from as int)));
            }
        }
        return None;
    }
    let mut i = from;
    while i <= s_len - pat_len
        invariant
            from <= i,
            pat_len <= s_len,
            i <= s_len - pat_len + 1,
            pat_len == pat@.len(),
            s_len == s@.len(),
            find_from(s@, pat@, from as int) == find_from(s@, pat@, i as int),
        decreases s_len - i,
    {
        let mut k: usize = 0;
        let mut matches = true;
        while k < pat_len
            invariant
                k <= pat_len,
                pat_len == pat@.len(),
                s_len == s@.len(),
                i + pat_len <= s_len,
                matches == (forall|m: int| 0 <= m < k ==> s@[i + m] == pat@[m]),
            decreases pat_len - k,
        {
            let sc = s.get_char(i + k);
            let pc = pat.get_char(k);
            if sc != pc {
                matches = false;
                k = pat_len;
            } else {
                k = k + 1;
            }
        }
        if matches {
            proof {
                assert(s@.subrange(i as int, i + pat@.len()) =~= pat@);
            }
            return Some(i);
        }
        proof {
            assert(s@.subrange(i as int, i + pat@.len()) != pat@) by {
                if s@.subrange(i as int, i + pat@.len()) == pat@ {
                    let m = choose|m: int| 0 <= m < pat@.len() && s@[i + m] != pat@[m];
                    assert(s@.subrange(i as int, i + pat@.len())[m] == s@[i + m]);
                }
            }
        }
        i = i + 1;
    }
    proof {
        lemma_find_from(s@, pat@, i as int);
        if find_from(s@, pat@, i as int) >= 0 {
            assert(match_at(s@, pat@, find_from(s@, pat@, i as int)));
        }
    }
    None
}

/// First occurrence of character `c` in `s` at or after `from`.
pub fn find_char(s: &str, c: char, from: usize) -> (r: Option<usize>)
    requires
        from <= s@.len(),
    ensures
        match r {
            Some(k) => k == find_char_from(s@, c, from as int),
            None => find_char_from(s@, c, from as int) == -1,
        },
{
    let s_len = s.unicode_len();
    let mut i = from;
    while i < s_len
        invariant
            from <= i <= s_len,
            s_len == s@.len(),
            find_char_from(s@, c, from as int) == find_char_from(s@, c, i as int),
        decreases s_len - i,
    {
        if s.get_char(i) == c {
            return Some(i);
        }
        i = i + 1;
    }
    None
}

pub fn str_contains(s: &str, pat: &str) -> (r: bool)
    ensures
        r == contains_sub(s@, pat@),
{
    find(s, pat, 0).is_some()
}

pub fn str_starts_with(s: &str, pat: &str) -> (r: bool)
    ensures
        r == starts_with(s@, pat@),
{
    let s_len = s.unicode_len();
    let pat_len = pat.unicode_len();
    if pat_len > s_len {
        return false;
    }
    let mut k: usize = 0;
    while k < pat_len
        invariant
            k <= pat_len,
            pat_len == pat@.len(),
            pat_len <= s@.len(),
            forall|m: int| 0 <= m < k ==> s@[m] == pat@[m],
        decreases pat_len - k,
    {
        if s.get_char(k) != pat.get_char(k) {
            proof {
                assert(s@.subrange(0, pat@.len() as int)[k as int] == s@[k as int]);
            }
            return false;
        }
        k = k + 1;
    }
    proof {
        assert(s@.subrange(0, pat@.len() as int) =~= pat@);
    }
    true
}

pub open spec fn trim_start_spec(s: Seq<char>) -> Seq<char>
    decreases s.len(),
{
    if s.len() > 0 && is_space(s[0]) {
        trim_start_spec(s.drop_first())
    } else {
        s
    }
}

pub open spec fn trim_end_spec(s: Seq<char>) -> Seq<char>
    decreases s.len(),
{
    if s.len() > 0 && is_space(s.last()) {
        trim_end_spec(s.drop_last())
    } else {
        s
    }
}

/// What `str::trim` leaves: `s` with leading and trailing whitespace removed.
pub open spec fn trim_spec(s: Seq<char>) -> Seq<char> {
    trim_end_spec(trim_start_spec(s))
}

/// Equivalent of `str::trim`.
pub fn trim<'a>(s: &'a str) -> (r: &'a str)
    ensures
        r@ == trim_spec(s@),
{
    let n = s.unicode_len();
    proof {
        assert(s@.subrange(0, n as int) =~= s@);
    }
    let mut i: usize = 0;
    while i < n && is_space_char(s.get_char(i))
        invariant
            0 <= i <= n,
            n == s@.len(),
            trim_start_spec(s@) == trim_start_spec(s@.subrange(i as int, n as int)),
        decreases n - i,
    {
        proof {
            assert(s@.subrange(i as int, n as int).drop_first()
                =~= s@.subrange(i + 1, n as int));
        }
        i = i + 1;
    }
    proof {
        assert(trim_start_spec(s@) == s@.subrange(i as int, n as int));
    }
    let mut j: usize = n;
    while j > i && is_space_char(s.get_char(j - 1))
        invariant
            i <= j <= n,
            n == s@.len(),
            trim_start_spec(s@) == s@.subrange(i as int, n as int),
            trim_spec(s@) == trim_end_spec(s@.subrange(i as int, j as int)),
        decreases j,
    {
        proof {
            assert(s@.subrange(i as int, j as int).last() == s@[j - 1]);
            assert(s@.subrange(i as int, j as int).drop_last()
                =~= s@.subrange(i as int, j - 1));
        }
        j = j - 1;
    }
    s.substring_char(i, j)
}

pub open spec fn trim_char_start_spec(s: Seq<char>, c: char) -> Seq<char>
    decreases s.len(),
{
    if s.len() > 0 && s[0] == c {
        trim_char_start_spec(s.drop_first(), c)
    } else {
        s
    }
}

pub open spec fn trim_char_end_spec(s: Seq<char>, c: char) -> Seq<char>
    decreases s.len(),
{
    if s.len() > 0 && s.last() == c {
        trim_char_end_spec(s.drop_last(), c)
    } else {
        s
    }
}

/// What `str::trim_matches(c)` leaves: `s` with every leading and trailing
/// occurrence of `c` removed.
pub open spec fn trim_char_spec(s: Seq<char>, c: char) -> Seq<char> {
    trim_char_end_spec(trim_char_start_spec(s, c), c)
}

/// Equivalent of `str::trim_matches` with a single-character pattern.
pub fn trim_char<'a>(s: &'a str, c: char) -> (r: &'a str)
    ensures
        r@ == trim_char_spec(s@, c),
{
    let n = s.unicode_len();
    proof {
        assert(s@.subrange(0, n as int) =~= s@);
    }
    let mut i: usize = 0;
    while i < n && s.get_char(i) == c
        invariant
            0 <= i <= n,
            n == s@.len(),
            trim_char_start_spec(s@, c) == trim_char_start_spec(s@.subrange(i as int, n as int), c),
        decreases n - i,
    {
        proof {
            assert(s@.subrange(i as int, n as int).drop_first()
                =~= s@.subrange(i + 1, n as int));
        }
        i = i + 1;
    }
    proof {
        assert(trim_char_start_spec(s@, c) == s@.subrange(i as int, n as int));
    }
    let mut j: usize = n;
    while j > i && s.get_char(j - 1) == c
        invariant
            i <= j <= n,
            n == s@.len(),
            trim_char_start_spec(s@, c) == s@.subrange(i as int, n as int),
            trim_char_spec(s@, c) == trim_char_end_spec(s@.subrange(i as int, j as int), c),
        decreases j,
    {
        proof {
            assert(s@.subrange(i as int, j as int).last() == s@[j - 1]);
            assert(s@.subrange(i as int, j as int).drop_last()
                =~= s@.subrange(i as int, j - 1));
        }
        j = j - 1;
    }
    s.substring_char(i, j)
}

/// A line body with one trailing carriage return removed, as `str::lines`
/// does for `\r\n` endings.
pub open spec fn strip_cr(s: Seq<char>) -> Seq<char> {
    if s.len() > 0 && s.last() == '\r' {
        s.drop_last()
    } else {
        s
    }
}

/// The lines of `s[i..]` under `str::lines` semantics: split at `\n`, with a
/// carriage return immediately before the `\n` dropped, and no empty final
/// line for text that ends in `\n`.
pub open spec fn lines_from(s: Seq<char>, i: int) -> Seq<Seq<char>>
    decreases s.len() - i when 0 <= i via lines_from_decreases
{
    if i < 0 || i >= s.len() {
        Seq::empty()
    } else {
        let j = find_char_from(s, '\n', i);
        if j < 0 {
            seq![s.subrange(i, s.len() as int)]
        } else {
            seq![strip_cr(s.subrange(i, j))] + lines_from(s, j + 1)
        }
    }
}

#[via_fn]
proof fn lines_from_decreases(s: Seq<char>, i: int) {
    if 0 <= i < s.len() {
        lemma_find_char_from(s, '\n', i);
    }
}

pub open spec fn spec_lines(s: Seq<char>) -> Seq<Seq<char>> {
    lines_from(s, 0)
}

/// The views of a sequence of owned strings.
pub open spec fn str_views(v: Seq<String>) -> Seq<Seq<char>> {
    Seq::new(v.len(), |k: int| v[k]@)
}

/// Equivalent of `str::lines().collect()`.
pub fn split_lines(s: &str) -> (r: Vec<String>)
    ensures
        str_views(r@) == spec_lines(s@),
{
    let n = s.unicode_len();
    let mut out: Vec<String> = Vec::new();
    let mut pos: usize = 0;
    proof {
        assert(str_views(out@) =~= Seq::<Seq<char>>::empty());
    }
    while pos < n
        invariant
            0 <= pos <= n,
            n == s@.len(),
            spec_lines(s@) == str_views(out@) + lines_from(s@, pos as int),
        decreases n - pos,
    {
        match find_char(s, '\n', pos) {
            Some(j) => {
                proof {
                    lemma_find_char_from(s@, '\n', pos as int);
                }
                let body =
                    if j > pos && s.get_char(j - 1) == '\r' {
                        s.substring_char(pos, j - 1)
                    } else {
                        s.substring_char(pos, j)
                    };
                proof {
                    if j > pos && s@[j - 1] == '\r' {
                        assert(s@.subrange(pos as int, j as int).last() == s@[j - 1]);
                        assert(s@.subrange(pos as int, j as int).drop_last()
                            =~= s@.subrange(pos as int, j - 1));
                    }
                    assert(body@ == strip_cr(s@.subrange(pos as int, j as int)));
                }
                let owned = body.to_owned();
                out.push(owned);
                proof {
                    assert(str_views(out@)
                        =~= str_views(out@.drop_last()) + seq![strip_cr(s@.subrange(pos as int, j as int))]);
                }
                pos = j + 1;
            },
            None => {
                let body = s.substring_char(pos, n);
                let owned = body.to_owned();
                out.push(owned);
                proof {
                    assert(str_views(out@)
                        =~= str_views(out@.drop_last()) + seq![s@.subrange(pos as int, n as int)]);
                    assert(lines_from(s@, n as int) =~= Seq::<Seq<char>>::empty());
                }
                pos = n;
            },
        }
    }
    proof {
        assert(lines_from(s@, pos as int) =~= Seq::<Seq<char>>::empty());
        assert(spec_lines(s@) =~= str_views(out@));
    }
    out
}

/// The lines joined with single newline separators: exactly the text that
/// stood between the enclosing delimiters' newlines.
pub open spec fn join_sep(ls: Seq<Seq<char>>) -> Seq<char>
    decreases ls.len(),
{
    if ls.len() == 0 {
        Seq::empty()
    } else if ls.len() == 1 {
        ls[0]
    } else {
        ls[0] + seq!['\n'] + join_sep(ls.drop_first())
    }
}

pub proof fn lemma_join_sep_snoc(ls: Seq<Seq<char>>, x: Seq<char>)
    ensures
        ls.len() == 0 ==> join_sep(ls.push(x)) == x,
        ls.len() > 0 ==> join_sep(ls.push(x)) == join_sep(ls) + seq!['\n'] + x,
    decreases ls.len(),
{
    if ls.len() == 0 {
        assert(ls.push(x)[0] == x);
    } else if ls.len() == 1 {
        assert(ls.push(x)[0] == ls[0]);
        assert(ls.push(x).drop_first() =~= seq![x]);
        assert(join_sep(seq![x]) == x);
        assert(join_sep(ls) == ls[0]);
    } else {
        assert(ls.push(x)[0] == ls[0]);
        assert(ls.push(x).drop_first() =~= ls.drop_first().push(x));
        lemma_join_sep_snoc(ls.drop_first(), x);
        assert(join_sep(ls.push(x))
            == ls[0] + seq!['\n'] + (join_sep(ls.drop_first()) + seq!['\n'] + x));
        assert(join_sep(ls.push(x)) =~= join_sep(ls) + seq!['\n'] + x);
    }
}

/// `s[i..]` with every occurrence of `pat` (leftmost, non-overlapping)
/// replaced by `rep`.  An empty pattern never matches.
pub open spec fn replace_from(s: Seq<char>, pat: Seq<char>, rep: Seq<char>, i: int) -> Seq<char>
    decreases s.len() - i,
{
    if i < 0 || i >= s.len() {
        Seq::empty()
    } else if pat.len() > 0 && match_at(s, pat, i) {
        rep + replace_from(s, pat, rep, i + pat.len())
    } else {
        seq![s[i]] + replace_from(s, pat, rep, i + 1)
    }
}

/// What `str::replace` returns (for a non-empty pattern).
pub open spec fn replace_spec(s: Seq<char>, pat: Seq<char>, rep: Seq<char>) -> Seq<char> {
    replace_from(s, pat, rep, 0)
}

/// Equivalent of `str::replace` for a non-empty pattern.
pub fn replace(s: &str, pat: &str, rep: &str) -> (r: String)
    requires
        pat@.len() > 0,
    ensures
        r@ == replace_spec(s@, pat@, rep@),
{
    let n = s.unicode_len();
    let pat_len = pat.unicode_len();
    let mut out = String::new();
    let mut i: usize = 0;
    while i < n
        invariant
            0 <= i <= n,
            n == s@.len(),
            pat_len == pat@.len(),
            pat_len > 0,
            replace_spec(s@, pat@, rep@) == out@ + replace_from(s@, pat@, rep@, i as int),
        decreases n - i,
    {
        let here =
            if pat_len <= n - i {
                let mut k: usize = 0;
                let mut matches = true;
                while k < pat_len
                    invariant
                        k <= pat_len,
                        pat_len == pat@.len(),
                        n == s@.len(),
                        i + pat_len <= n,
                        matches == (forall|m: int| 0 <= m < k ==> s@[i + m] == pat@[m]),
                    decreases pat_len - k,
                {
                    if s.get_char(i + k) != pat.get_char(k) {
                        matches = false;
                        k = pat_len;
                    } else {
                        k = k + 1;
                    }
                }
                proof {
                    if matches {
                        assert(s@.subrange(i as int, i + pat@.len()) =~= pat@);
                    } else {
                        assert(s@.subrange(i as int, i + pat@.len()) != pat@) by {
                            if s@.subrange(i as int, i + pat@.len()) == pat@ {
                                let m = choose|m: int|
                                    0 <= m < pat@.len() && s@[i + m] != pat@[m];
                                assert(s@.subrange(i as int, i + pat@.len())[m] == s@[i + m]);
                            }
                        }
                    }
                }
                matches
            } else {
                false
            };
        if here {
            out.append(rep);
            i = i + pat_len;
        } else {
            let one = s.substring_char(i, i + 1);
            proof {
                assert(one@ =~= seq![s@[i as int]]);
            }
            out.append(one);
            i = i + 1;
        }
    }
    proof {
        assert(replace_from(s@, pat@, rep@, i as int) =~= Seq::<char>::empty());
        assert(replace_spec(s@, pat@, rep@) =~= out@);
    }
    out
}

/// A pattern that occurs nowhere leaves the suffix unchanged.
pub proof fn lemma_replace_absent(s: Seq<char>, pat: Seq<char>, rep: Seq<char>, i: int)
    requires
        0 <= i,
        forall|j: int| i <= j ==> !match_at(s, pat, j),
    ensures
        replace_from(s, pat, rep, i) == s.subrange(if i <= s.len() { i } else { s.len() as int }, s.len() as int),
    decreases s.len() - i,
{
    if i >= s.len() {
        assert(replace_from(s, pat, rep, i) =~= s.subrange(s.len() as int, s.len() as int));
    } else {
        lemma_replace_absent(s, pat, rep, i + 1);
        assert(replace_from(s, pat, rep, i) =~= s.subrange(i, s.len() as int));
    }
}

/// Exact character-wise equality of two string slices.
pub fn str_eq(a: &str, b: &str) -> (r: bool)
    ensures
        r == (a@ == b@),
{
    let na = a.unicode_len();
    let nb = b.unicode_len();
    if na != nb {
        return false;
    }
    let mut k: usize = 0;
    while k < na
        invariant
            0 <= k <= na,
            na == a@.len(),
            na == b@.len(),
            forall|m: int| 0 <= m < k ==> a@[m] == b@[m],
        decreases na - k,
    {
        if a.get_char(k) != b.get_char(k) {
            return false;
        }
        k = k + 1;
    }
    proof {
        assert(a@ =~= b@);
    }
    true
}

/// The decimal digit character for `d` (0 through 9).
pub open spec fn dec_digit(d: int) -> char {
    if d == 0 { '0' }
    else if d == 1 { '1' }
    else if d == 2 { '2' }
    else if d == 3 { '3' }
    else if d == 4 { '4' }
    else if d == 5 { '5' }
    else if d == 6 { '6' }
    else if d == 7 { '7' }
    else if d == 8 { '8' }
    else { '9' }
}

/// The decimal digits of a non-negative number, most significant first.
pub open spec fn dec_nat(n: int) -> Seq<char>
    decreases n,
{
    if n < 10 {
        seq![dec_digit(n)]
    } else {
        dec_nat(n / 10) + seq![dec_digit(n % 10)]
    }
}

/// The decimal rendering of an integer, with a leading minus when negative.
pub open spec fn dec_int(n: int) -> Seq<char> {
    if n < 0 {
        seq!['-'] + dec_nat(-n)
    } else {
        dec_nat(n)
    }
}

fn digit_str(d: u64) -> (r: &'static str)
    requires
        d < 10,
    ensures
        r@ == seq![dec_digit(d as int)],
{
    let s: &'static str = match d {
        0 => "0",
        1 => "1",
        2 => "2",
        3 => "3",
        4 => "4",
        5 => "5",
        6 => "6",
        7 => "7",
        8 => "8",
        _ => "9",
    };
    proof {
        reveal_strlit("0");
        reveal_strlit("1");
        reveal_strlit("2");
        reveal_strlit("3");
        reveal_strlit("4");
        reveal_strlit("5");
        reveal_strlit("6");
        reveal_strlit("7");
        reveal_strlit("8");
        reveal_strlit("9");
        assert(s@ =~= seq![dec_digit(d as int)]);
    }
    s
}

/// Decimal rendering of an unsigned number.
pub fn u64_to_dec(n: u64) -> (r: String)
    ensures
        r@ == dec_nat(n as int),
    decreases n,
{
    if n < 10 {
        String::from_str(digit_str(n))
    } else {
        let q = u64_to_dec(n / 10);
        q.concat(digit_str(n % 10))
    }
}

/// Decimal rendering of a signed number.
pub fn i32_to_dec(n: i32) -> (r: String)
    ensures
        r@ == dec_int(n as int),
{
    if n < 0 {
        let mag: u64 = (-(n as i64)) as u64;
        let mut out = String::from_str("-");
        proof {
            reveal_strlit("-");
            assert("-"@ =~= seq!['-']);
        }
        let digits = u64_to_dec(mag);
        out.append(digits.as_str());
        out
    } else {
        u64_to_dec(n as u64)
    }
}

/// Character `c` occurs somewhere in `s`.
pub open spec fn has_char(s: Seq<char>, c: char) -> bool {
    exists|k: int| 0 <= k < s.len() && s[k] == c
}

pub proof fn lemma_has_char_concat(x: Seq<char>, y: Seq<char>, c: char)
    requires
        !has_char(x, c),
        !has_char(y, c),
    ensures
        !has_char(x + y, c),
{
    if has_char(x + y, c) {
        let k = choose|k: int| 0 <= k < (x + y).len() && (x + y)[k] == c;
        if k < x.len() {
            assert(x[k] == c);
        } else {
            assert(y[k - x.len()] == c);
        }
    }
}

/// A pattern whose first character never occurs in `s` replaces nothing.
pub proof fn lemma_replace_id_no_char(s: Seq<char>, pat: Seq<char>, rep: Seq<char>, c: char)
    requires
        pat.len() > 0,
        pat[0] == c,
        !has_char(s, c),
    ensures
        replace_spec(s, pat, rep) == s,
{
    assert forall|j: int| 0 <= j implies !match_at(s, pat, j) by {
        if match_at(s, pat, j) {
            assert(s.subrange(j, j + pat.len())[0] == s[j]);
            assert(s[j] == c);
        }
    }
    lemma_replace_absent(s, pat, rep, 0);
    assert(s.subrange(0, s.len() as int) =~= s);
}

/// `find_char_from` pinned to a known first occurrence.
pub proof fn lemma_find_char_at(s: Seq<char>, c: char, i: int, k: int)
    requires
        0 <= i <= k < s.len(),
        s[k] == c,
        forall|m: int| i <= m < k ==> s[m] != c,
    ensures
        find_char_from(s, c, i) == k,
    decreases k - i,
{
    if i < k {
        lemma_find_char_at(s, c, i + 1, k);
    }
}

/// Splitting lines of a suffix equals splitting lines of the suffix taken as
/// its own text.
pub proof fn lemma_lines_shift(s: Seq<char>, i: int)
    requires
        0 <= i <= s.len(),
    ensures
        lines_from(s, i) == lines_from(s.subrange(i, s.len() as int), 0),
    decreases s.len() - i,
{
    let t = s.subrange(i, s.len() as int);
    if i >= s.len() {
        assert(lines_from(t, 0) =~= Seq::<Seq<char>>::empty());
    } else {
        let j = find_char_from(s, '\n', i);
        lemma_find_char_from(s, '\n', i);
        lemma_find_char_from(t, '\n', 0);
        let j2 = find_char_from(t, '\n', 0);
        if j < 0 {
            assert(j2 < 0) by {
                if j2 >= 0 {
                    assert(0 <= j2 < t.len());
                    assert(t[j2] == '\n');
                    assert(t[j2] == s[i + j2]);
                    assert(i <= i + j2 < s.len());
                    assert(s[i + j2] != '\n');
                    assert(false);
                }
            }
            assert(t.subrange(0, t.len() as int) =~= t);
            assert(s.subrange(i, s.len() as int) =~= t);
            assert(lines_from(s, i) == seq![t]);
            assert(lines_from(t, 0) == seq![t.subrange(0, t.len() as int)]);
            assert(lines_from(s, i) =~= lines_from(t, 0));
        } else {
            assert(t[j - i] == '\n');
            assert(forall|m: int| 0 <= m < j - i ==> t[m] == s[i + m]);
            lemma_find_char_at(t, '\n', 0, j - i);
            assert(t.subrange(0, j - i) =~= s.subrange(i, j));
            lemma_lines_shift(s, j + 1);
            lemma_lines_shift(t, j - i + 1);
            assert(t.subrange(j - i + 1, t.len() as int) =~= s.subrange(j + 1, s.len() as int));
            assert(lines_from(s, i) =~= lines_from(t, 0));
        }
    }
}

pub proof fn lemma_trim_start_len(s: Seq<char>)
    ensures
        trim_start_spec(s).len() <= s.len(),
    decreases s.len(),
{
    if s.len() > 0 && is_space(s[0]) {
        lemma_trim_start_len(s.drop_first());
    }
}

pub proof fn lemma_trim_end_len(s: Seq<char>)
    ensures
        trim_end_spec(s).len() <= s.len(),
    decreases s.len(),
{
    if s.len() > 0 && is_space(s.last()) {
        lemma_trim_end_len(s.drop_last());
    }
}

/// A string equal to its own trim neither starts nor ends with whitespace.
pub proof fn lemma_trimmed_ends(s: Seq<char>)
    requires
        trim_spec(s) == s,
        s.len() > 0,
    ensures
        !is_space(s[0]),
        !is_space(s.last()),
{
    lemma_trim_start_len(s);
    lemma_trim_end_len(trim_start_spec(s));
    if is_space(s[0]) {
        lemma_trim_start_len(s.drop_first());
        lemma_trim_end_len(trim_start_spec(s.drop_first()));
    }
    if is_space(s.last()) {
        assert(trim_start_spec(s) == s);
        lemma_trim_end_len(s.drop_last());
    }
}


/// No carriage return stands immediately before a newline, so `str::lines`
/// drops nothing from any line body.
pub open spec fn no_cr_nl(s: Seq<char>) -> bool {
    forall|k: int| 1 <= k < s.len() && #[trigger] s[k] == '\n' ==> s[k - 1] != '\r'
}

/// The line bodies a newline-terminated chunk contributes: an empty chunk
/// contributes one empty line, any other chunk its own lines.
pub open spec fn content_lines(x: Seq<char>) -> Seq<Seq<char>> {
    if x.len() == 0 {
        seq![x]
    } else {
        spec_lines(x)
    }
}

/// A non-empty text without newlines is a single line.
pub proof fn lemma_lines_single(x: Seq<char>)
    requires
        x.len() > 0,
        !has_char(x, '\n'),
    ensures
        spec_lines(x) == seq![x],
{
    lemma_find_char_from(x, '\n', 0);
    assert(find_char_from(x, '\n', 0) < 0) by {
        if find_char_from(x, '\n', 0) >= 0 {
            assert(x[find_char_from(x, '\n', 0)] == '\n');
        }
    }
    assert(x.subrange(0, x.len() as int) =~= x);
    assert(lines_from(x, 0) =~= seq![x]);
}

/// Peeling one newline-terminated chunk off the front of a text.
pub proof fn lemma_lines_concat(x: Seq<char>, rest: Seq<char>)
    requires
        no_cr_nl(x),
        x.len() == 0 || (x.last() != '\n' && x.last() != '\r'),
    ensures
        spec_lines(x + seq!['\n'] + rest) == content_lines(x) + spec_lines(rest),
    decreases x.len(),
{
    let s = x + seq!['\n'] + rest;
    let j = find_char_from(x, '\n', 0);
    lemma_find_char_from(x, '\n', 0);
    if j < 0 {
        assert(s[x.len() as int] == '\n');
        assert(forall|m: int| 0 <= m < x.len() ==> s[m] == x[m] && s[m] != '\n');
        lemma_find_char_at(s, '\n', 0, x.len() as int);
        assert(s.subrange(0, x.len() as int) =~= x);
        assert(strip_cr(x) == x);
        lemma_lines_shift(s, x.len() as int + 1);
        assert(s.subrange(x.len() as int + 1, s.len() as int) =~= rest);
        if x.len() == 0 {
            assert(content_lines(x) =~= seq![x]);
        } else {
            lemma_lines_single(x);
            assert(!has_char(x, '\n')) by {
                if has_char(x, '\n') {
                    let k = choose|k: int| 0 <= k < x.len() && x[k] == '\n';
                }
            }
        }
        assert(lines_from(s, 0) =~= content_lines(x) + spec_lines(rest));
    } else {
        // the first newline of the whole text is the first newline of `x`
        assert(s[j] == x[j]);
        assert(forall|m: int| 0 <= m < j ==> s[m] == x[m] && s[m] != '\n');
        lemma_find_char_at(s, '\n', 0, j);
        assert(s.subrange(0, j) =~= x.subrange(0, j));
        // the chunk's own split has the same first line
        lemma_find_char_at(x, '\n', 0, j);
        // no carriage return ends the first line body
        assert(strip_cr(s.subrange(0, j)) == x.subrange(0, j)) by {
            if j > 0 {
                assert(x[j] == '\n');
                assert(x[j - 1] != '\r');
                assert(x.subrange(0, j).last() == x[j - 1]);
            }
        }
        // both splits continue with the chunk's tail
        let x2 = x.subrange(j + 1, x.len() as int);
        assert(x2.len() > 0) by {
            assert(x.last() != '\n');
            assert(j < x.len() - 1);
        }
        assert(no_cr_nl(x2)) by {
            assert forall|k: int| 1 <= k < x2.len() && #[trigger] x2[k] == '\n'
                implies x2[k - 1] != '\r' by {
                assert(x2[k] == x[j + 1 + k]);
                assert(x2[k - 1] == x[j + k]);
            }
        }
        assert(x2.last() == x.last());
        lemma_lines_concat(x2, rest);
        assert(x2 + seq!['\n'] + rest =~= s.subrange(j + 1, s.len() as int));
        lemma_lines_shift(s, j + 1);
        lemma_lines_shift(x, j + 1);
        assert(content_lines(x2) == spec_lines(x2));
        assert(lines_from(s, 0)
            == seq![x.subrange(0, j)] + (content_lines(x2) + spec_lines(rest)));
        assert(lines_from(x, 0) == seq![x.subrange(0, j)] + spec_lines(x2));
        assert(lines_from(s, 0) =~= content_lines(x) + spec_lines(rest));
    }
}

/// Joining a chunk's lines with newline separators restores the chunk.
pub proof fn lemma_join_sep_lines(x: Seq<char>)
    requires
        no_cr_nl(x),
        x.len() == 0 || x.last() != '\n',
    ensures
        join_sep(content_lines(x)) == x,
    decreases x.len(),
{
    if x.len() == 0 {
        assert(content_lines(x) == seq![x]);
        assert(join_sep(seq![x]) == x);
    } else {
        let j = find_char_from(x, '\n', 0);
        lemma_find_char_from(x, '\n', 0);
        if j < 0 {
            assert(!has_char(x, '\n')) by {
                if has_char(x, '\n') {
                    let k = choose|k: int| 0 <= k < x.len() && x[k] == '\n';
                }
            }
            lemma_lines_single(x);
            assert(join_sep(seq![x]) == x);
        } else {
            let head = x.subrange(0, j);
            let x2 = x.subrange(j + 1, x.len() as int);
            assert(x2.len() > 0) by {
                assert(x.last() != '\n');
                assert(j < x.len() - 1);
            }
            assert(strip_cr(head) == head) by {
                if j > 0 {
                    assert(x[j - 1] != '\r');
                    assert(head.last() == x[j - 1]);
                }
            }
            lemma_lines_shift(x, j + 1);
            assert(lines_from(x, 0) == seq![head] + spec_lines(x2));
            assert(spec_lines(x2).len() >= 1) by {
                lemma_find_char_from(x2, '\n', 0);
            }
            assert((seq![head] + spec_lines(x2)).drop_first() =~= spec_lines(x2));
            assert((seq![head] + spec_lines(x2))[0] == head);
            assert(no_cr_nl(x2)) by {
                assert forall|k: int| 1 <= k < x2.len() && #[trigger] x2[k] == '\n'
                    implies x2[k - 1] != '\r' by {
                    assert(x2[k] == x[j + 1 + k]);
                    assert(x2[k - 1] == x[j + k]);
                }
            }
            assert(x2.last() == x.last());
            lemma_join_sep_lines(x2);
            assert(content_lines(x2) == spec_lines(x2));
            assert(join_sep(content_lines(x)) == head + seq!['\n'] + x2);
            assert(head + seq!['\n'] + x2 =~= x);
        }
    }
}

} // verus!
