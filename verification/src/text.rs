//! Character-sequence machinery shared by the whole compiler:
//! substring search, first/all replacement, trimming, decimal
//! rendering of placeholder indices, and conversions between
//! `String`/`&str` and `Vec<char>`.

use vstd::prelude::*;

verus! {

use crate::is_space;

// ---------------------------------------------------------------------
// Searching
// ---------------------------------------------------------------------

/// Index of the first occurrence of `c` in `s` at or after `from`.
pub open spec fn find_char_from(s: Seq<char>, c: char, from: int) -> Option<int>
    decreases s.len() - from when 0 <= from
{
    if from >= s.len() {
        None
    } else if s[from] == c {
        Some(from)
    } else {
        find_char_from(s, c, from + 1)
    }
}

pub proof fn lemma_find_char_from(s: Seq<char>, c: char, from: int)
    requires
        0 <= from,
    ensures
        match find_char_from(s, c, from) {
            Some(i) => from <= i < s.len() && s[i] == c && (forall|j: int|
                from <= j < i ==> s[j] != c),
            None => forall|j: int| from <= j < s.len() ==> s[j] != c,
        },
    decreases s.len() - from,
{
    if from < s.len() && s[from] != c {
        lemma_find_char_from(s, c, from + 1);
    }
}

/// Index of the last occurrence of `c` within `s[lo..hi]`.
pub open spec fn last_char_in(s: Seq<char>, c: char, lo: int, hi: int) -> Option<int>
    decreases hi - lo when hi <= s.len()
{
    if lo >= hi || hi <= 0 {
        None
    } else if s[hi - 1] == c {
        Some(hi - 1)
    } else {
        last_char_in(s, c, lo, hi - 1)
    }
}

pub proof fn lemma_last_char_in(s: Seq<char>, c: char, lo: int, hi: int)
    requires
        hi <= s.len(),
    ensures
        match last_char_in(s, c, lo, hi) {
            Some(i) => lo <= i < hi && s[i] == c && (forall|j: int| i < j < hi ==> s[j] != c),
            None => forall|j: int| lo <= j < hi ==> 0 <= j ==> s[j] != c,
        },
    decreases hi - lo,
{
    if lo < hi && hi > 0 && s[hi - 1] != c {
        lemma_last_char_in(s, c, lo, hi - 1);
    }
}

/// `n` occurs in `h` starting at position `i`.
pub open spec fn matches_at(h: Seq<char>, n: Seq<char>, i: int) -> bool {
    0 <= i && i + n.len() <= h.len() && h.subrange(i, i + n.len() as int) == n
}

/// Position of the first occurrence of `n` in `h` at or after `from`.
pub open spec fn find_sub_from(h: Seq<char>, n: Seq<char>, from: int) -> Option<int>
    decreases h.len() - from when 0 <= from
{
    if from + n.len() > h.len() {
        None
    } else if matches_at(h, n, from) {
        Some(from)
    } else if from < h.len() {
        find_sub_from(h, n, from + 1)
    } else {
        None
    }
}

pub proof fn lemma_find_sub_from(h: Seq<char>, n: Seq<char>, from: int)
    requires
        0 <= from,
        n.len() > 0,
    ensures
        match find_sub_from(h, n, from) {
            Some(i) => from <= i && i + n.len() <= h.len() && matches_at(h, n, i) && (forall|
                j: int,
            | from <= j < i ==> !matches_at(h, n, j)),
            None => forall|j: int| from <= j ==> !matches_at(h, n, j),
        },
    decreases h.len() - from,
{
    if from + n.len() > h.len() {
    } else if matches_at(h, n, from) {
    } else {
        lemma_find_sub_from(h, n, from + 1);
    }
}

/// The search finds exactly the position below which nothing matches.
pub proof fn lemma_find_sub_exactly_at(h: Seq<char>, n: Seq<char>, from: int, p: int)
    requires
        0 <= from <= p,
        n.len() > 0,
        matches_at(h, n, p),
        forall|q: int| from <= q < p ==> !matches_at(h, n, q),
    ensures
        find_sub_from(h, n, from) == Some(p),
{
    lemma_find_sub_from(h, n, from);
    match find_sub_from(h, n, from) {
        None => {
            assert(!matches_at(h, n, p));
        },
        Some(i) => {
            if i < p {
                assert(!matches_at(h, n, i));
            }
            if i > p {
                assert(!matches_at(h, n, p));
            }
        },
    }
}

/// The search fails when nothing matches at or after `from`.
pub proof fn lemma_find_sub_nowhere(h: Seq<char>, n: Seq<char>, from: int)
    requires
        0 <= from,
        n.len() > 0,
        forall|q: int| from <= q ==> !matches_at(h, n, q),
    ensures
        find_sub_from(h, n, from) is None,
{
    lemma_find_sub_from(h, n, from);
    if find_sub_from(h, n, from) is Some {
        let i = find_sub_from(h, n, from)->0;
        assert(!matches_at(h, n, i));
    }
}

// ---------------------------------------------------------------------
// Replacement
// ---------------------------------------------------------------------

/// `h` with the first occurrence of `n` (if any) replaced by `r`.
pub open spec fn replace_first(h: Seq<char>, n: Seq<char>, r: Seq<char>) -> Seq<char> {
    match find_sub_from(h, n, 0) {
        None => h,
        Some(i) => h.subrange(0, i) + r + h.subrange(i + n.len() as int, h.len() as int),
    }
}

/// `h` with every occurrence of `n` at or after `from` replaced by `r`,
/// scanning left to right and never rescanning a replacement; the prefix
/// `h[..from]` is not part of the result.
pub open spec fn replace_all_from(h: Seq<char>, n: Seq<char>, r: Seq<char>, from: int) -> Seq<
    char,
>
    decreases h.len() - from when 0 <= from && n.len() > 0
{
    match find_sub_from(h, n, from) {
        None => h.subrange(from, h.len() as int),
        Some(i) => if from <= i && i + n.len() <= h.len() {
            h.subrange(from, i) + r + replace_all_from(h, n, r, i + n.len() as int)
        } else {
            h.subrange(from, h.len() as int)
        },
    }
}

/// `h` with every occurrence of `n` replaced by `r`.
pub open spec fn replace_all(h: Seq<char>, n: Seq<char>, r: Seq<char>) -> Seq<char> {
    replace_all_from(h, n, r, 0)
}

// ---------------------------------------------------------------------
// Trimming and runs
// ---------------------------------------------------------------------

/// Index of the first non-whitespace character at or after `i`
/// (`s.len()` if there is none).
pub open spec fn first_non_space_from(s: Seq<char>, i: int) -> int
    decreases s.len() - i when 0 <= i
{
    if i >= s.len() {
        s.len() as int
    } else if is_space(s[i]) {
        first_non_space_from(s, i + 1)
    } else {
        i
    }
}

/// One past the last non-whitespace character of `s[..i]` (`0` if none).
pub open spec fn end_non_space_before(s: Seq<char>, i: int) -> int
    decreases i when i <= s.len()
{
    if i <= 0 {
        0
    } else if is_space(s[i - 1]) {
        end_non_space_before(s, i - 1)
    } else {
        i
    }
}

pub proof fn lemma_end_non_space_before(s: Seq<char>, i: int)
    requires
        0 <= i <= s.len(),
    ensures
        0 <= end_non_space_before(s, i) <= i,
        forall|j: int| end_non_space_before(s, i) <= j < i ==> is_space(s[j]),
        end_non_space_before(s, i) > 0 ==> !is_space(s[end_non_space_before(s, i) - 1]),
    decreases i,
{
    if i > 0 && is_space(s[i - 1]) {
        lemma_end_non_space_before(s, i - 1);
    }
}

/// `s` with leading and trailing whitespace removed.
pub open spec fn trim_spec(s: Seq<char>) -> Seq<char> {
    let a = first_non_space_from(s, 0);
    let b = end_non_space_before(s, s.len() as int);
    if a <= b {
        s.subrange(a, b)
    } else {
        Seq::empty()
    }
}

/// `s` is blank: nothing remains after trimming.
pub open spec fn is_blank(s: Seq<char>) -> bool {
    trim_spec(s).len() == 0
}

/// Index just past the run of `c` characters starting at `i`.
pub open spec fn run_end(s: Seq<char>, c: char, i: int) -> int
    decreases s.len() - i when 0 <= i
{
    if i >= s.len() {
        s.len() as int
    } else if s[i] == c {
        run_end(s, c, i + 1)
    } else {
        i
    }
}

pub proof fn lemma_run_end(s: Seq<char>, c: char, i: int)
    requires
        0 <= i <= s.len(),
    ensures
        i <= run_end(s, c, i) <= s.len(),
        forall|j: int| i <= j < run_end(s, c, i) ==> s[j] == c,
        run_end(s, c, i) < s.len() ==> s[run_end(s, c, i)] != c,
    decreases s.len() - i,
{
    if i < s.len() && s[i] == c {
        lemma_run_end(s, c, i + 1);
    }
}

// ---------------------------------------------------------------------
// Decimal rendering
// ---------------------------------------------------------------------

pub open spec fn digit_char(d: int) -> char {
    if d == 0 {
        '0'
    } else if d == 1 {
        '1'
    } else if d == 2 {
        '2'
    } else if d == 3 {
        '3'
    } else if d == 4 {
        '4'
    } else if d == 5 {
        '5'
    } else if d == 6 {
        '6'
    } else if d == 7 {
        '7'
    } else if d == 8 {
        '8'
    } else {
        '9'
    }
}

/// Decimal digits of `n`, most significant first.
pub open spec fn dec_digits(n: int) -> Seq<char>
    decreases n when 0 <= n
{
    if n < 10 {
        seq![digit_char(n)]
    } else {
        dec_digits(n / 10).push(digit_char(n % 10))
    }
}

/// The placeholder `<$i>` that masks the `i`-th inline token (1-based).
pub open spec fn placeholder(i: int) -> Seq<char> {
    seq!['<', '$'] + dec_digits(i) + seq!['>']
}

pub proof fn lemma_placeholder_len(i: int)
    requires
        0 <= i,
    ensures
        placeholder(i).len() >= 4,
{
    lemma_dec_digits_len(i);
}

pub proof fn lemma_dec_digits_len(n: int)
    requires
        0 <= n,
    ensures
        dec_digits(n).len() >= 1,
    decreases n,
{
    if n >= 10 {
        lemma_dec_digits_len(n / 10);
    }
}

fn digit_exec(d: u64) -> (c: char)
    requires
        d < 10,
    ensures
        c == digit_char(d as int),
{
    match d {
        0 => '0',
        1 => '1',
        2 => '2',
        3 => '3',
        4 => '4',
        5 => '5',
        6 => '6',
        7 => '7',
        8 => '8',
        _ => '9',
    }
}

/// Decimal digits of `n` as characters.
pub fn dec_chars(n: u64) -> (r: Vec<char>)
    ensures
        r@ == dec_digits(n as int),
    decreases n,
{
    if n < 10 {
        let mut v: Vec<char> = Vec::new();
        v.push(digit_exec(n));
        proof {
            assert(v@ =~= dec_digits(n as int));
        }
        v
    } else {
        let mut v = dec_chars(n / 10);
        v.push(digit_exec(n % 10));
        proof {
            assert(v@ =~= dec_digits(n as int));
        }
        v
    }
}

/// The placeholder `<$i>` as characters.
pub fn placeholder_chars(i: usize) -> (r: Vec<char>)
    ensures
        r@ == placeholder(i as int),
{
    let mut v: Vec<char> = Vec::new();
    v.push('<');
    v.push('$');
    let ds = dec_chars(i as u64);
    append_vec(&mut v, &ds);
    v.push('>');
    proof {
        assert(v@ =~= placeholder(i as int));
    }
    v
}

// ---------------------------------------------------------------------
// Joining
// ---------------------------------------------------------------------

/// `parts` concatenated with `sep` between consecutive parts.
pub open spec fn join_with(parts: Seq<Seq<char>>, sep: Seq<char>) -> Seq<char>
    decreases parts.len()
{
    if parts.len() == 0 {
        Seq::empty()
    } else if parts.len() == 1 {
        parts[0]
    } else {
        parts[0] + sep + join_with(parts.drop_first(), sep)
    }
}

/// Appending one more part to a join appends a separator and the part.
pub proof fn lemma_join_push(parts: Seq<Seq<char>>, sep: Seq<char>, p: Seq<char>)
    ensures
        join_with(parts.push(p), sep) == if parts.len() == 0 {
            p
        } else {
            join_with(parts, sep) + sep + p
        },
    decreases parts.len(),
{
    let pp = parts.push(p);
    if parts.len() == 0 {
        assert(pp[0] == p);
        assert(join_with(pp, sep) == pp[0]);
    } else if parts.len() == 1 {
        assert(pp.drop_first() =~= seq![p]);
        assert(pp[0] == parts[0]);
        assert(join_with(pp, sep) == pp[0] + sep + join_with(pp.drop_first(), sep));
        assert(join_with(pp.drop_first(), sep) == p);
        assert(join_with(parts, sep) == parts[0]);
    } else {
        lemma_join_push(parts.drop_first(), sep, p);
        assert(pp.drop_first() =~= parts.drop_first().push(p));
        assert(join_with(pp, sep) == pp[0] + sep + join_with(pp.drop_first(), sep));
        assert(join_with(pp.drop_first(), sep) == join_with(parts.drop_first(), sep) + sep + p);
        assert(join_with(parts, sep) == parts[0] + sep + join_with(parts.drop_first(), sep));
        assert(parts[0] + sep + (join_with(parts.drop_first(), sep) + sep + p) =~= (parts[0] + sep
            + join_with(parts.drop_first(), sep)) + sep + p);
    }
}

// ---------------------------------------------------------------------
// String / Vec<char> conversions
// ---------------------------------------------------------------------

/// Relies on `String::push`: appends exactly the given character.
#[verifier::external_body]
pub fn push_char(s: &mut String, c: char)
    ensures
        final(s)@ == old(s)@.push(c),
{
    s.push(c);
}

/// The characters of `s` as a vector.
pub fn chars_of(s: &str) -> (r: Vec<char>)
    ensures
        r@ == s@,
{
    let n = s.unicode_len();
    let mut v: Vec<char> = Vec::new();
    let mut i: usize = 0;
    while i < n
        invariant
            n == s@.len(),
            i <= n,
            v@ == s@.subrange(0, i as int),
        decreases n - i,
    {
        v.push(s.get_char(i));
        proof {
            assert(v@ =~= s@.subrange(0, i + 1 as int));
        }
        i += 1;
    }
    proof {
        assert(s@.subrange(0, n as int) =~= s@);
    }
    v
}

/// The characters of `v` as a `String`.
pub fn string_of(v: &Vec<char>) -> (r: String)
    ensures
        r@ == v@,
{
    let mut s = String::new();
    let mut i: usize = 0;
    while i < v.len()
        invariant
            i <= v@.len(),
            s@ == v@.subrange(0, i as int),
        decreases v@.len() - i,
    {
        push_char(&mut s, v[i]);
        proof {
            assert(s@ =~= v@.subrange(0, i + 1 as int));
        }
        i += 1;
    }
    proof {
        assert(v@.subrange(0, v@.len() as int) =~= v@);
    }
    s
}

/// Appends all of `src` to `dst`.
pub fn append_vec(dst: &mut Vec<char>, src: &Vec<char>)
    ensures
        final(dst)@ == old(dst)@ + src@,
{
    let mut i: usize = 0;
    while i < src.len()
        invariant
            i <= src@.len(),
            dst@ == old(dst)@ + src@.subrange(0, i as int),
        decreases src@.len() - i,
    {
        dst.push(src[i]);
        proof {
            assert(dst@ =~= old(dst)@ + src@.subrange(0, i + 1 as int));
        }
        i += 1;
    }
    proof {
        assert(old(dst)@ + src@.subrange(0, src@.len() as int) =~= old(dst)@ + src@);
    }
}

/// Appends the characters of `s` to `dst`.
pub fn append_str(dst: &mut Vec<char>, s: &str)
    ensures
        final(dst)@ == old(dst)@ + s@,
{
    let n = s.unicode_len();
    let mut i: usize = 0;
    while i < n
        invariant
            n == s@.len(),
            i <= n,
            dst@ == old(dst)@ + s@.subrange(0, i as int),
        decreases n - i,
    {
        dst.push(s.get_char(i));
        proof {
            assert(dst@ =~= old(dst)@ + s@.subrange(0, i + 1 as int));
        }
        i += 1;
    }
    proof {
        assert(old(dst)@ + s@.subrange(0, n as int) =~= old(dst)@ + s@);
    }
}

/// Appends `h[lo..hi]` to `dst`.
pub fn append_range(dst: &mut Vec<char>, h: &Vec<char>, lo: usize, hi: usize)
    requires
        lo <= hi <= h@.len(),
    ensures
        final(dst)@ == old(dst)@ + h@.subrange(lo as int, hi as int),
{
    let mut i: usize = lo;
    while i < hi
        invariant
            lo <= i <= hi <= h@.len(),
            dst@ == old(dst)@ + h@.subrange(lo as int, i as int),
        decreases hi - i,
    {
        dst.push(h[i]);
        proof {
            assert(dst@ =~= old(dst)@ + h@.subrange(lo as int, i + 1 as int));
        }
        i += 1;
    }
}

/// A copy of `h[lo..hi]`.
pub fn copy_range(h: &Vec<char>, lo: usize, hi: usize) -> (out: Vec<char>)
    requires
        lo <= hi <= h@.len(),
    ensures
        out@ == h@.subrange(lo as int, hi as int),
{
    let mut out: Vec<char> = Vec::new();
    append_range(&mut out, h, lo, hi);
    proof {
        assert(Seq::<char>::empty() + h@.subrange(lo as int, hi as int) =~= h@.subrange(
            lo as int,
            hi as int,
        ));
    }
    out
}

// ---------------------------------------------------------------------
// Executable search and replacement
// ---------------------------------------------------------------------

/// Position of the first occurrence of `c` in `h` at or after `from`.
pub fn find_char_vec(s: &Vec<char>, c: char, from: usize) -> (r: Option<usize>)
    ensures
        match r {
            Some(i) => find_char_from(s@, c, from as int) == Some(i as int) && from <= i && i
                < s@.len() && s@[i as int] == c,
            None => find_char_from(s@, c, from as int) is None,
        },
{
    let mut i: usize = from;
    while i < s.len()
        invariant
            from <= i,
            find_char_from(s@, c, from as int) == find_char_from(s@, c, i as int),
        decreases s@.len() - i,
    {
        if s[i] == c {
            return Some(i);
        }
        i += 1;
    }
    None
}

/// Position of the last occurrence of `c` within `s[lo..hi]`.
pub fn last_char_in_vec(s: &Vec<char>, c: char, lo: usize, hi: usize) -> (r: Option<usize>)
    requires
        hi <= s@.len(),
    ensures
        match r {
            Some(k) => last_char_in(s@, c, lo as int, hi as int) == Some(k as int) && lo <= k
                && k < hi && s@[k as int] == c,
            None => last_char_in(s@, c, lo as int, hi as int) is None,
        },
{
    let mut j: usize = hi;
    while j > lo
        invariant
            j <= hi <= s@.len(),
            last_char_in(s@, c, lo as int, hi as int) == last_char_in(s@, c, lo as int, j as int),
        decreases j,
    {
        if s[j - 1] == c {
            return Some(j - 1);
        }
        j -= 1;
    }
    None
}

/// Whether `n` occurs in `h` at position `i`.
pub fn match_vec(h: &Vec<char>, n: &Vec<char>, i: usize) -> (r: bool)
    requires
        i + n@.len() <= h@.len(),
    ensures
        r == matches_at(h@, n@, i as int),
{
    let hl = h.len();
    let mut j: usize = 0;
    while j < n.len()
        invariant
            j <= n@.len(),
            i + n@.len() <= h@.len(),
            h@.len() == hl,
            forall|k: int| 0 <= k < j ==> h@[i + k] == n@[k],
        decreases n@.len() - j,
    {
        if h[i + j] != n[j] {
            proof {
                assert(h@.subrange(i as int, i + n@.len() as int)[j as int] == h@[i + j]);
                assert(h@.subrange(i as int, i + n@.len() as int) != n@);
            }
            return false;
        }
        j += 1;
    }
    proof {
        assert(h@.subrange(i as int, i + n@.len() as int) =~= n@);
    }
    true
}

/// Position of the first occurrence of `n` in `h` at or after `from`.
pub fn find_sub_vec(h: &Vec<char>, n: &Vec<char>, from: usize) -> (r: Option<usize>)
    ensures
        match r {
            Some(i) => find_sub_from(h@, n@, from as int) == Some(i as int) && from <= i && i
                + n@.len() <= h@.len() && matches_at(h@, n@, i as int),
            None => find_sub_from(h@, n@, from as int) is None,
        },
{
    if n.len() > h.len() || from > h.len() - n.len() {
        proof {
            assert(from + n@.len() > h@.len());
        }
        return None;
    }
    let hl = h.len();
    let last = h.len() - n.len();
    let mut i: usize = from;
    while i <= last
        invariant
            from <= i,
            i <= last + 1,
            last + n@.len() == h@.len(),
            h@.len() == hl,
            n@.len() <= h@.len(),
            find_sub_from(h@, n@, from as int) == find_sub_from(h@, n@, i as int),
        decreases last + 1 - i,
    {
        if match_vec(h, n, i) {
            return Some(i);
        }
        proof {
            if n@.len() == 0 {
                assert(h@.subrange(i as int, i as int) =~= n@);
            }
            assert(i < h@.len());
            assert(find_sub_from(h@, n@, i as int) == find_sub_from(h@, n@, i as int + 1));
        }
        i += 1;
    }
    proof {
        assert(i as int + n@.len() > h@.len());
    }
    None
}

/// `h` with the first occurrence of `n` replaced by `r`.
pub fn replace_first_vec(h: &Vec<char>, n: &Vec<char>, r: &Vec<char>) -> (out: Vec<char>)
    ensures
        out@ == replace_first(h@, n@, r@),
{
    let hl = h.len();
    match find_sub_vec(h, n, 0) {
        None => copy_range(h, 0, hl),
        Some(i) => {
            let mut out = copy_range(h, 0, i);
            append_vec(&mut out, r);
            append_range(&mut out, h, i + n.len(), hl);
            out
        },
    }
}

/// `h` with every occurrence of `n` replaced by `r`.
pub fn replace_all_vec(h: &Vec<char>, n: &Vec<char>, r: &Vec<char>) -> (out: Vec<char>)
    requires
        n@.len() > 0,
    ensures
        out@ == replace_all(h@, n@, r@),
{
    let hl = h.len();
    let mut out: Vec<char> = Vec::new();
    let mut pos: usize = 0;
    proof {
        assert(out@ + replace_all_from(h@, n@, r@, 0) =~= replace_all_from(h@, n@, r@, 0));
    }
    loop
        invariant
            pos <= h@.len(),
            h@.len() == hl,
            n@.len() > 0,
            replace_all(h@, n@, r@) == out@ + replace_all_from(h@, n@, r@, pos as int),
        decreases h@.len() - pos,
    {
        match find_sub_vec(h, n, pos) {
            None => {
                proof {
                    assert(replace_all_from(h@, n@, r@, pos as int) == h@.subrange(
                        pos as int,
                        h@.len() as int,
                    ));
                }
                append_range(&mut out, h, pos, h.len());
                return out;
            },
            Some(i) => {
                proof {
                    assert(replace_all_from(h@, n@, r@, pos as int) == h@.subrange(
                        pos as int,
                        i as int,
                    ) + r@ + replace_all_from(h@, n@, r@, i as int + n@.len()));
                    assert(out@ + (h@.subrange(pos as int, i as int) + r@ + replace_all_from(
                        h@,
                        n@,
                        r@,
                        i as int + n@.len(),
                    )) =~= (out@ + h@.subrange(pos as int, i as int) + r@) + replace_all_from(
                        h@,
                        n@,
                        r@,
                        i as int + n@.len(),
                    ));
                }
                append_range(&mut out, h, pos, i);
                append_vec(&mut out, r);
                pos = i + n.len();
            },
        }
    }
}

/// `s` with leading and trailing whitespace removed.
pub fn trim_vec(s: &Vec<char>) -> (out: Vec<char>)
    ensures
        out@ == trim_spec(s@),
{
    let mut a: usize = 0;
    while a < s.len() && is_space_exec(s[a])
        invariant
            a <= s@.len(),
            first_non_space_from(s@, 0) == first_non_space_from(s@, a as int),
        decreases s@.len() - a,
    {
        a += 1;
    }
    let mut b: usize = s.len();
    while b > a && is_space_exec(s[b - 1])
        invariant
            a <= b <= s@.len(),
            end_non_space_before(s@, s@.len() as int) == end_non_space_before(s@, b as int),
        decreases b,
    {
        b -= 1;
    }
    let out = copy_range(s, a, b);
    proof {
        assert(first_non_space_from(s@, 0) == a as int);
        lemma_end_non_space_before(s@, b as int);
        if b > a {
            assert(end_non_space_before(s@, b as int) == b as int);
            assert(out@ == trim_spec(s@));
        } else {
            assert(end_non_space_before(s@, b as int) <= a as int);
            assert(out@ =~= trim_spec(s@));
        }
    }
    out
}

/// Index just past the run of `c` characters starting at `from`.
pub fn run_end_vec(s: &Vec<char>, c: char, from: usize) -> (r: usize)
    requires
        from <= s@.len(),
    ensures
        r as int == run_end(s@, c, from as int),
        from <= r <= s@.len(),
{
    let mut i: usize = from;
    while i < s.len() && s[i] == c
        invariant
            from <= i <= s@.len(),
            run_end(s@, c, from as int) == run_end(s@, c, i as int),
        decreases s@.len() - i,
    {
        i += 1;
    }
    i
}

/// Index of the first non-whitespace character at or after `from`.
pub fn first_non_space_vec(s: &Vec<char>, from: usize) -> (r: usize)
    requires
        from <= s@.len(),
    ensures
        r as int == first_non_space_from(s@, from as int),
        from <= r <= s@.len(),
{
    let mut i: usize = from;
    while i < s.len() && is_space_exec(s[i])
        invariant
            from <= i <= s@.len(),
            first_non_space_from(s@, from as int) == first_non_space_from(s@, i as int),
        decreases s@.len() - i,
    {
        i += 1;
    }
    i
}

/// The characters of `s`, trimmed of leading and trailing whitespace.
pub fn trimmed_chars(s: &str) -> (r: Vec<char>)
    ensures
        r@ == trim_spec(s@),
{
    let cs = chars_of(s);
    trim_vec(&cs)
}

/// Whether `c` is whitespace for trimming purposes.
pub fn is_space_exec(c: char) -> (r: bool)
    ensures
        r == is_space(c),
{
    c == ' ' || c == '\t' || c == '\r' || c == '\n'
}

} // verus!
