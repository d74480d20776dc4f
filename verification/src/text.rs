use vstd::prelude::*;

verus! {

// ---------------------------------------------------------------------------
// Character classes and ASCII case folding
// ---------------------------------------------------------------------------

/// Whitespace as it matters for trimming model responses.
pub open spec fn is_space_char(c: char) -> bool {
    c == ' ' || c == '\t' || c == '\n' || c == '\r'
}

pub open spec fn is_digit_char(c: char) -> bool {
    '0' as u32 <= c as u32 && c as u32 <= '9' as u32
}

/// ASCII upper-casing of a single character; everything else is untouched.
pub open spec fn upper_char(c: char) -> char {
    match c {
        'a' => 'A', 'b' => 'B', 'c' => 'C', 'd' => 'D', 'e' => 'E', 'f' => 'F',
        'g' => 'G', 'h' => 'H', 'i' => 'I', 'j' => 'J', 'k' => 'K', 'l' => 'L',
        'm' => 'M', 'n' => 'N', 'o' => 'O', 'p' => 'P', 'q' => 'Q', 'r' => 'R',
        's' => 'S', 't' => 'T', 'u' => 'U', 'v' => 'V', 'w' => 'W', 'x' => 'X',
        'y' => 'Y', 'z' => 'Z',
        _ => c,
    }
}

/// ASCII lower-casing of a single character; everything else is untouched.
pub open spec fn lower_char(c: char) -> char {
    match c {
        'A' => 'a', 'B' => 'b', 'C' => 'c', 'D' => 'd', 'E' => 'e', 'F' => 'f',
        'G' => 'g', 'H' => 'h', 'I' => 'i', 'J' => 'j', 'K' => 'k', 'L' => 'l',
        'M' => 'm', 'N' => 'n', 'O' => 'o', 'P' => 'p', 'Q' => 'q', 'R' => 'r',
        'S' => 's', 'T' => 't', 'U' => 'u', 'V' => 'v', 'W' => 'w', 'X' => 'x',
        'Y' => 'y', 'Z' => 'z',
        _ => c,
    }
}

pub fn upper_char_x(c: char) -> (r: char)
    ensures
        r == upper_char(c),
{
    match c {
        'a' => 'A', 'b' => 'B', 'c' => 'C', 'd' => 'D', 'e' => 'E', 'f' => 'F',
        'g' => 'G', 'h' => 'H', 'i' => 'I', 'j' => 'J', 'k' => 'K', 'l' => 'L',
        'm' => 'M', 'n' => 'N', 'o' => 'O', 'p' => 'P', 'q' => 'Q', 'r' => 'R',
        's' => 'S', 't' => 'T', 'u' => 'U', 'v' => 'V', 'w' => 'W', 'x' => 'X',
        'y' => 'Y', 'z' => 'Z',
        _ => c,
    }
}

pub fn lower_char_x(c: char) -> (r: char)
    ensures
        r == lower_char(c),
{
    match c {
        'A' => 'a', 'B' => 'b', 'C' => 'c', 'D' => 'd', 'E' => 'e', 'F' => 'f',
        'G' => 'g', 'H' => 'h', 'I' => 'i', 'J' => 'j', 'K' => 'k', 'L' => 'l',
        'M' => 'm', 'N' => 'n', 'O' => 'o', 'P' => 'p', 'Q' => 'q', 'R' => 'r',
        'S' => 's', 'T' => 't', 'U' => 'u', 'V' => 'v', 'W' => 'w', 'X' => 'x',
        'Y' => 'y', 'Z' => 'z',
        _ => c,
    }
}

pub fn is_space_char_x(c: char) -> (r: bool)
    ensures
        r == is_space_char(c),
{
    c == ' ' || c == '\t' || c == '\n' || c == '\r'
}

pub fn is_digit_char_x(c: char) -> (r: bool)
    ensures
        r == is_digit_char(c),
{
    '0' as u32 <= c as u32 && c as u32 <= '9' as u32
}

/// The suffix the boolean discipline looks for.
pub open spec fn boolean_suffix() -> Seq<char> {
    seq!['T', 'R', 'U', 'E']
}

pub open spec fn lower_seq(s: Seq<char>) -> Seq<char> {
    s.map_values(|c: char| lower_char(c))
}

pub open spec fn upper_seq(s: Seq<char>) -> Seq<char> {
    s.map_values(|c: char| upper_char(c))
}

// ---------------------------------------------------------------------------
// Conversions between strings and character vectors
// ---------------------------------------------------------------------------

/// The characters of a string slice, in order.
pub fn chars_of(s: &str) -> (v: Vec<char>)
    ensures
        v@ == s@,
{
    let n = s.unicode_len();
    let mut v: Vec<char> = Vec::new();
    for i in 0..n
        invariant
            n == s@.len(),
            v@ == s@.subrange(0, i as int),
    {
        v.push(s.get_char(i));
        assert(v@ =~= s@.subrange(0, i + 1 as int));
    }
    assert(v@ =~= s@);
    v
}

/// A fresh string holding the characters `v[from..to]`.
pub fn string_from_chars(v: &Vec<char>, from: usize, to: usize) -> (r: String)
    requires
        from <= to <= v@.len(),
    ensures
        r@ == v@.subrange(from as int, to as int),
{
    let mut r = String::new();
    for i in from..to
        invariant
            from <= i <= to <= v@.len(),
            r@ == v@.subrange(from as int, i as int),
    {
        crate::trusted::push_char(&mut r, v[i]);
        assert(r@ =~= v@.subrange(from as int, i + 1 as int));
    }
    r
}

// ---------------------------------------------------------------------------
// Trimming
// ---------------------------------------------------------------------------

pub open spec fn trim_start_spec(s: Seq<char>) -> Seq<char>
    decreases s.len(),
{
    if s.len() == 0 {
        s
    } else if is_space_char(s[0]) {
        trim_start_spec(s.drop_first())
    } else {
        s
    }
}

pub open spec fn trim_end_spec(s: Seq<char>) -> Seq<char>
    decreases s.len(),
{
    if s.len() == 0 {
        s
    } else if is_space_char(s.last()) {
        trim_end_spec(s.drop_last())
    } else {
        s
    }
}

/// Leading and trailing whitespace removed.
pub open spec fn trim_spec(s: Seq<char>) -> Seq<char> {
    trim_end_spec(trim_start_spec(s))
}

proof fn lemma_trim_start_at(s: Seq<char>, i: int)
    requires
        0 <= i <= s.len(),
        forall|k: int| 0 <= k < i ==> is_space_char(s[k]),
        i == s.len() || !is_space_char(s[i]),
    ensures
        trim_start_spec(s) == s.subrange(i, s.len() as int),
    decreases i,
{
    if i == 0 {
        if s.len() == 0 || !is_space_char(s[0]) {
            assert(trim_start_spec(s) == s);
            assert(s.subrange(0, s.len() as int) =~= s);
        }
    } else {
        let t = s.drop_first();
        assert(is_space_char(s[0]));
        assert(trim_start_spec(s) == trim_start_spec(t));
        assert(forall|k: int| 0 <= k < i - 1 ==> is_space_char(#[trigger] t[k]));
        lemma_trim_start_at(t, i - 1);
        assert(t.subrange(i - 1, t.len() as int) =~= s.subrange(i, s.len() as int));
    }
}

proof fn lemma_trim_end_at(s: Seq<char>, j: int)
    requires
        0 <= j <= s.len(),
        forall|k: int| j <= k < s.len() ==> is_space_char(s[k]),
        j == 0 || !is_space_char(s[j - 1]),
    ensures
        trim_end_spec(s) == s.subrange(0, j),
    decreases s.len() - j,
{
    if j == s.len() {
        if s.len() == 0 || !is_space_char(s.last()) {
            assert(trim_end_spec(s) == s);
            assert(s.subrange(0, s.len() as int) =~= s);
        } else {
            assert(j == 0);
            assert(s.len() == 0);
        }
    } else {
        let t = s.drop_last();
        assert(is_space_char(s.last()));
        assert(trim_end_spec(s) == trim_end_spec(t));
        assert(forall|k: int| j <= k < t.len() ==> is_space_char(#[trigger] t[k]));
        lemma_trim_end_at(t, j);
        assert(t.subrange(0, j) =~= s.subrange(0, j));
    }
}

/// The bounds of the trimmed region of `v`: the trimmed text is `v[lo..hi]`.
pub fn trim_bounds(v: &Vec<char>) -> (r: (usize, usize))
    ensures
        r.0 <= r.1 <= v@.len(),
        v@.subrange(r.0 as int, r.1 as int) == trim_spec(v@),
{
    let n = v.len();
    let mut lo: usize = 0;
    while lo < n && is_space_char_x(v[lo])
        invariant
            0 <= lo <= n,
            n == v@.len(),
            forall|k: int| 0 <= k < lo ==> is_space_char(v@[k]),
        decreases n - lo,
    {
        lo += 1;
    }
    proof {
        lemma_trim_start_at(v@, lo as int);
    }
    if lo == n {
        proof {
            assert(trim_start_spec(v@) =~= Seq::<char>::empty());
            assert(trim_spec(v@) =~= v@.subrange(lo as int, lo as int));
        }
        return (lo, lo);
    }
    let mut hi: usize = n;
    while hi > lo && is_space_char_x(v[hi - 1])
        invariant
            lo <= hi <= n,
            n == v@.len(),
            forall|k: int| hi <= k < n ==> is_space_char(v@[k]),
        decreases hi,
    {
        hi -= 1;
    }
    proof {
        // hi > lo here: v[lo] is not a space, so the backward scan stops at or after lo + 1.
        let t = trim_start_spec(v@);
        assert(t == v@.subrange(lo as int, n as int));
        assert(!is_space_char(v@[lo as int]));
        assert(hi > lo);
        assert(forall|k: int| hi - lo <= k < t.len() ==> is_space_char(#[trigger] t[k]));
        lemma_trim_end_at(t, hi - lo);
        assert(t.subrange(0, hi - lo) =~= v@.subrange(lo as int, hi as int));
    }
    (lo, hi)
}

// ---------------------------------------------------------------------------
// Substring search
// ---------------------------------------------------------------------------

/// `needle` occurs in `hay` starting at position `i`.
pub open spec fn occurs_at(hay: Seq<char>, needle: Seq<char>, i: int) -> bool {
    0 <= i && i + needle.len() <= hay.len() && hay.subrange(i, i + needle.len() as int)
        == needle
}

pub open spec fn contains_seq(hay: Seq<char>, needle: Seq<char>) -> bool {
    exists|i: int| occurs_at(hay, needle, i)
}

/// `needle` occurs at `i` up to ASCII case folding of `hay`.
pub open spec fn occurs_ci_at(hay: Seq<char>, needle: Seq<char>, i: int) -> bool {
    0 <= i && i + needle.len() <= hay.len() && lower_seq(
        hay.subrange(i, i + needle.len() as int),
    ) == needle
}

pub open spec fn contains_ci(hay: Seq<char>, needle: Seq<char>) -> bool {
    exists|i: int| occurs_ci_at(hay, needle, i)
}

fn match_at(hay: &Vec<char>, needle: &Vec<char>, at: usize) -> (r: bool)
    requires
        at + needle@.len() <= hay@.len(),
    ensures
        r == occurs_at(hay@, needle@, at as int),
{
    let hl = hay.len();
    let m = needle.len();
    for j in 0..m
        invariant
            at + m <= hl,
            hl == hay@.len(),
            m == needle@.len(),
            forall|k: int| 0 <= k < j ==> hay@[at + k] == needle@[k],
    {
        if hay[at + j] != needle[j] {
            assert(hay@.subrange(at as int, at + m as int)[j as int] != needle@[j as int]);
            return false;
        }
    }
    assert(hay@.subrange(at as int, at + m as int) =~= needle@);
    true
}

fn match_ci_at(hay: &Vec<char>, needle: &Vec<char>, at: usize) -> (r: bool)
    requires
        at + needle@.len() <= hay@.len(),
    ensures
        r == occurs_ci_at(hay@, needle@, at as int),
{
    let hl = hay.len();
    let m = needle.len();
    for j in 0..m
        invariant
            at + m <= hl,
            hl == hay@.len(),
            m == needle@.len(),
            forall|k: int| 0 <= k < j ==> lower_char(hay@[at + k]) == needle@[k],
    {
        if lower_char_x(hay[at + j]) != needle[j] {
            assert(lower_seq(hay@.subrange(at as int, at + m as int))[j as int]
                != needle@[j as int]);
            return false;
        }
    }
    assert(lower_seq(hay@.subrange(at as int, at + m as int)) =~= needle@);
    true
}

/// The first position where `needle` occurs in `hay`, if any.
pub fn find_sub(hay: &Vec<char>, needle: &Vec<char>) -> (r: Option<usize>)
    ensures
        match r {
            Some(i) => occurs_at(hay@, needle@, i as int) && forall|j: int|
                0 <= j < i ==> !occurs_at(hay@, needle@, j),
            None => !contains_seq(hay@, needle@),
        },
{
    if needle.len() > hay.len() {
        assert(forall|i: int| !occurs_at(hay@, needle@, i));
        return None;
    }
    if needle.len() == 0 {
        assert(hay@.subrange(0, 0) =~= needle@);
        return Some(0);
    }
    let last = hay.len() - needle.len();
    let mut i: usize = 0;
    while i <= last
        invariant
            1 <= needle@.len() <= hay@.len(),
            hay@.len() <= usize::MAX,
            last == hay@.len() - needle@.len(),
            0 <= i <= last + 1,
            forall|j: int| 0 <= j < i ==> !occurs_at(hay@, needle@, j),
        decreases last + 1 - i,
    {
        if match_at(hay, needle, i) {
            return Some(i);
        }
        i += 1;
    }
    assert(forall|j: int| occurs_at(hay@, needle@, j) ==> 0 <= j <= last);
    None
}

/// The first position where `needle` occurs in `hay` up to ASCII case folding.
pub fn find_sub_ci(hay: &Vec<char>, needle: &Vec<char>) -> (r: Option<usize>)
    ensures
        match r {
            Some(i) => occurs_ci_at(hay@, needle@, i as int) && forall|j: int|
                0 <= j < i ==> !occurs_ci_at(hay@, needle@, j),
            None => !contains_ci(hay@, needle@),
        },
{
    if needle.len() > hay.len() {
        assert(forall|i: int| !occurs_ci_at(hay@, needle@, i));
        return None;
    }
    if needle.len() == 0 {
        assert(lower_seq(hay@.subrange(0, 0)) =~= needle@);
        return Some(0);
    }
    let last = hay.len() - needle.len();
    let mut i: usize = 0;
    while i <= last
        invariant
            1 <= needle@.len() <= hay@.len(),
            hay@.len() <= usize::MAX,
            last == hay@.len() - needle@.len(),
            0 <= i <= last + 1,
            forall|j: int| 0 <= j < i ==> !occurs_ci_at(hay@, needle@, j),
        decreases last + 1 - i,
    {
        if match_ci_at(hay, needle, i) {
            return Some(i);
        }
        i += 1;
    }
    assert(forall|j: int| occurs_ci_at(hay@, needle@, j) ==> 0 <= j <= last);
    None
}

/// The last position where `needle` occurs in `hay`, if any.
pub fn rfind_sub(hay: &Vec<char>, needle: &Vec<char>) -> (r: Option<usize>)
    ensures
        match r {
            Some(i) => occurs_at(hay@, needle@, i as int) && forall|j: int|
                i < j ==> !occurs_at(hay@, needle@, j),
            None => !contains_seq(hay@, needle@),
        },
{
    if needle.len() > hay.len() {
        assert(forall|i: int| !occurs_at(hay@, needle@, i));
        return None;
    }
    if needle.len() == 0 {
        let n = hay.len();
        assert(hay@.subrange(n as int, n as int) =~= needle@);
        assert(forall|j: int| n < j ==> !occurs_at(hay@, needle@, j));
        return Some(n);
    }
    let last = hay.len() - needle.len();
    let mut i: usize = last + 1;
    while i > 0
        invariant
            1 <= needle@.len() <= hay@.len(),
            hay@.len() <= usize::MAX,
            last == hay@.len() - needle@.len(),
            0 <= i <= last + 1,
            forall|j: int| i <= j ==> !occurs_at(hay@, needle@, j),
        decreases i,
    {
        i -= 1;
        if match_at(hay, needle, i) {
            return Some(i);
        }
    }
    None
}

/// Whether `needle` occurs anywhere in `hay`.
pub fn contains_sub(hay: &Vec<char>, needle: &Vec<char>) -> (r: bool)
    ensures
        r == contains_seq(hay@, needle@),
{
    match find_sub(hay, needle) {
        Some(_) => true,
        None => false,
    }
}

/// The first position where `needle` occurs in `hay`; meaningful only when
/// it occurs at all.
pub open spec fn first_index_of(hay: Seq<char>, needle: Seq<char>) -> int {
    choose|i: int|
        occurs_at(hay, needle, i) && (forall|j: int| 0 <= j < i ==> !occurs_at(hay, needle, j))
}

/// The last position where `needle` occurs in `hay`; meaningful only when
/// it occurs at all.
pub open spec fn last_index_of(hay: Seq<char>, needle: Seq<char>) -> int {
    choose|i: int| occurs_at(hay, needle, i) && (forall|j: int| j > i ==> !occurs_at(hay, needle, j))
}

pub proof fn lemma_first_index_is(hay: Seq<char>, needle: Seq<char>, i: int)
    requires
        occurs_at(hay, needle, i),
        forall|j: int| 0 <= j < i ==> !occurs_at(hay, needle, j),
    ensures
        first_index_of(hay, needle) == i,
{
    let k = first_index_of(hay, needle);
    assert(occurs_at(hay, needle, k) && (forall|j: int| 0 <= j < k ==> !occurs_at(hay, needle, j)))
        by {
        assert(occurs_at(hay, needle, i) && (forall|j: int|
            0 <= j < i ==> !occurs_at(hay, needle, j)));
    }
    if k < i {
        assert(occurs_at(hay, needle, k));
        assert(false);
    }
    if i < k {
        assert(occurs_at(hay, needle, i));
        assert(false);
    }
}

pub proof fn lemma_last_index_is(hay: Seq<char>, needle: Seq<char>, i: int)
    requires
        occurs_at(hay, needle, i),
        forall|j: int| j > i ==> !occurs_at(hay, needle, j),
    ensures
        last_index_of(hay, needle) == i,
{
    let k = last_index_of(hay, needle);
    assert(occurs_at(hay, needle, k) && (forall|j: int| j > k ==> !occurs_at(hay, needle, j))) by {
        assert(occurs_at(hay, needle, i) && (forall|j: int| j > i ==> !occurs_at(hay, needle, j)));
    }
    if k < i {
        assert(occurs_at(hay, needle, i));
        assert(false);
    }
    if i < k {
        assert(occurs_at(hay, needle, k));
        assert(false);
    }
}

// ---------------------------------------------------------------------------
// Lines
// ---------------------------------------------------------------------------

/// The characters after the last newline of `s`, in order.
pub open spec fn line_tail(s: Seq<char>) -> Seq<char>
    decreases s.len(),
{
    if s.len() == 0 {
        s
    } else if s.last() == '\n' {
        Seq::<char>::empty()
    } else {
        line_tail(s.drop_last()).push(s.last())
    }
}

/// The last line of `s` that holds at least one character, or empty when
/// `s` is nothing but newlines.
pub open spec fn last_nonempty_line(s: Seq<char>) -> Seq<char>
    decreases s.len(),
{
    if s.len() == 0 {
        s
    } else if s.last() == '\n' {
        last_nonempty_line(s.drop_last())
    } else {
        line_tail(s)
    }
}

proof fn lemma_strip_newlines(s: Seq<char>, j: int)
    requires
        0 <= j <= s.len(),
        forall|k: int| j <= k < s.len() ==> s[k] == '\n',
    ensures
        last_nonempty_line(s) == last_nonempty_line(s.subrange(0, j)),
    decreases s.len() - j,
{
    if j == s.len() {
        assert(s.subrange(0, j) =~= s);
    } else {
        assert(s.last() == '\n');
        let t = s.drop_last();
        assert(forall|k: int| j <= k < t.len() ==> t[k] == '\n');
        lemma_strip_newlines(t, j);
        assert(t.subrange(0, j) =~= s.subrange(0, j));
    }
}

proof fn lemma_line_tail_at(s: Seq<char>, i: int)
    requires
        0 <= i <= s.len(),
        forall|k: int| i <= k < s.len() ==> s[k] != '\n',
        i == 0 || s[i - 1] == '\n',
    ensures
        line_tail(s) == s.subrange(i, s.len() as int),
    decreases s.len(),
{
    if i == s.len() {
        if s.len() == 0 {
        } else {
            assert(s.last() == '\n');
        }
        assert(s.subrange(i, s.len() as int) =~= line_tail(s));
    } else {
        assert(s.last() != '\n');
        if i == s.len() - 1 {
            let t = s.drop_last();
            if i == 0 {
                assert(t.len() == 0);
                assert(line_tail(t) == t);
            } else {
                assert(t.last() == '\n');
            }
            assert(line_tail(s) == line_tail(t).push(s.last()));
            assert(line_tail(s) =~= s.subrange(i, s.len() as int));
        } else {
            let t = s.drop_last();
            assert(forall|k: int| i <= k < t.len() ==> t[k] != '\n');
            lemma_line_tail_at(t, i);
            assert(line_tail(s) == line_tail(t).push(s.last()));
            assert(t.subrange(i, t.len() as int).push(s.last()) =~= s.subrange(
                i,
                s.len() as int,
            ));
        }
    }
}

/// The bounds of the last non-empty line of `v`: that line is `v[lo..hi]`.
pub fn last_line_bounds(v: &Vec<char>) -> (r: (usize, usize))
    ensures
        r.0 <= r.1 <= v@.len(),
        v@.subrange(r.0 as int, r.1 as int) == last_nonempty_line(v@),
{
    let n = v.len();
    let mut j: usize = n;
    while j > 0 && v[j - 1] == '\n'
        invariant
            0 <= j <= n,
            n == v@.len(),
            forall|k: int| j <= k < n ==> v@[k] == '\n',
        decreases j,
    {
        j -= 1;
    }
    proof {
        lemma_strip_newlines(v@, j as int);
    }
    if j == 0 {
        proof {
            assert(v@.subrange(0, 0) =~= last_nonempty_line(v@.subrange(0, 0)));
        }
        return (0, 0);
    }
    let mut i: usize = j;
    while i > 0 && v[i - 1] != '\n'
        invariant
            0 <= i <= j,
            j <= n == v@.len(),
            forall|k: int| i <= k < j ==> v@[k] != '\n',
        decreases i,
    {
        i -= 1;
    }
    proof {
        let p = v@.subrange(0, j as int);
        assert(forall|k: int| i <= k < p.len() ==> p[k] != '\n');
        assert(i == 0 || p[i - 1] == '\n');
        lemma_line_tail_at(p, i as int);
        assert(p.last() != '\n');
        assert(last_nonempty_line(p) == line_tail(p));
        assert(p.subrange(i as int, p.len() as int) =~= v@.subrange(i as int, j as int));
    }
    (i, j)
}

// ---------------------------------------------------------------------------
// Slicing and filtering character vectors
// ---------------------------------------------------------------------------

/// The characters `v[from..to]` as a fresh vector.
pub fn vec_range(v: &Vec<char>, from: usize, to: usize) -> (r: Vec<char>)
    requires
        from <= to <= v@.len(),
    ensures
        r@ == v@.subrange(from as int, to as int),
{
    let mut r: Vec<char> = Vec::new();
    for i in from..to
        invariant
            from <= i <= to <= v@.len(),
            r@ == v@.subrange(from as int, i as int),
    {
        r.push(v[i]);
        assert(r@ =~= v@.subrange(from as int, i + 1 as int));
    }
    r
}

/// The characters a numeric response keeps: digits and minus signs.
pub open spec fn keep_numeric(s: Seq<char>) -> Seq<char> {
    s.filter(|c: char| is_digit_char(c) || c == '-')
}

/// Keeps the digit and minus characters of `v[from..to]`, in order.
pub fn filter_numeric(v: &Vec<char>, from: usize, to: usize) -> (r: Vec<char>)
    requires
        from <= to <= v@.len(),
    ensures
        r@ == keep_numeric(v@.subrange(from as int, to as int)),
{
    let mut r: Vec<char> = Vec::new();
    proof {
        assert(v@.subrange(from as int, from as int) =~= Seq::<char>::empty());
    }
    assert(r@ == keep_numeric(v@.subrange(from as int, from as int))) by {
        reveal(Seq::filter);
    }
    for i in from..to
        invariant
            from <= i <= to <= v@.len(),
            r@ == keep_numeric(v@.subrange(from as int, i as int)),
    {
        let c = v[i];
        if is_digit_char_x(c) || c == '-' {
            r.push(c);
        }
        proof {
            let pre = v@.subrange(from as int, i as int);
            let post = v@.subrange(from as int, i + 1 as int);
            assert(post.drop_last() =~= pre);
            assert(post == pre.push(v@[i as int]));
            pre.lemma_filter_push(v@[i as int], |c: char| is_digit_char(c) || c == '-');
        }
    }
    r
}

} // verus!
