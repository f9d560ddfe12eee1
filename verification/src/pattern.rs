//! The patterns that are registered.
//!
//! The router compiles a pattern when it is registered and aborts on one it
//! cannot compile. Registration therefore takes the patterns of which this is
//! known beforehand: literal ones, and those whose capture segments are
//! plain names, each used once.

use vstd::prelude::*;

verus! {

/// The longest pattern with capture segments that is registered, in
/// characters.
pub const MAX_CAPTURE_PATTERN: usize = 1024;

/// The most capture segments that the router takes in one pattern.
pub const MAX_SEGMENTS: usize = 16;

/// A pattern that the router compares with a topic character by character:
/// it opens no capture segment and does not end in the wildcard star.
pub open spec fn literal_pattern(pattern: Seq<char>) -> bool {
    &&& forall|i: int| 0 <= i < pattern.len() ==> pattern[i] != '{'
    &&& pattern.len() > 0 ==> pattern[pattern.len() - 1] != '*'
}

/// A character of a capture segment's name.
pub open spec fn name_char(c: char) -> bool {
    ('a' <= c && c <= 'z') || ('A' <= c && c <= 'Z') || ('0' <= c && c <= '9') || c == '_'
}

/// A character with which a capture segment's name begins.
pub open spec fn name_start(c: char) -> bool {
    ('a' <= c && c <= 'z') || ('A' <= c && c <= 'Z') || c == '_'
}

/// A capture segment `{name}` stands from `open` to `close`.
pub open spec fn segment(pattern: Seq<char>, open: int, close: int) -> bool {
    &&& 0 <= open < close < pattern.len()
    &&& pattern[open] == '{'
    &&& pattern[close] == '}'
    &&& forall|i: int| open < i < close ==> name_char(#[trigger] pattern[i])
    &&& name_start(pattern[open + 1])
}

/// The name of the segment from `open` to `close`.
pub open spec fn segment_name(pattern: Seq<char>, open: int, close: int) -> Seq<char> {
    pattern.subrange(open + 1, close)
}

/// The number of opening braces before `upto`.
pub open spec fn open_count(pattern: Seq<char>, upto: int) -> nat
    decreases upto,
{
    if upto <= 0 {
        0
    } else {
        open_count(pattern, upto - 1) + if pattern[upto - 1] == '{' {
            1nat
        } else {
            0nat
        }
    }
}

/// A pattern of bounded length with capture segments: every opening brace
/// begins a segment, there are no more segments than the router takes, and
/// no two of them have the same name.
pub open spec fn capture_pattern(pattern: Seq<char>) -> bool {
    &&& pattern.len() <= MAX_CAPTURE_PATTERN
    &&& 0 < open_count(pattern, pattern.len() as int) <= MAX_SEGMENTS
    &&& forall|o: int|
        0 <= o < pattern.len() && #[trigger] pattern[o] == '{' ==> exists|c: int|
            segment(pattern, o, c)
    &&& forall|o1: int, c1: int, o2: int, c2: int|
        #[trigger] segment(pattern, o1, c1) && #[trigger] segment(pattern, o2, c2) && o1 != o2
            ==> segment_name(pattern, o1, c1) != segment_name(pattern, o2, c2)
}

/// A pattern that is registered.
pub open spec fn admitted_pattern(pattern: Seq<char>) -> bool {
    literal_pattern(pattern) || capture_pattern(pattern)
}

/// Without an opening brace the count of them is zero.
proof fn lemma_no_open(pattern: Seq<char>, upto: int)
    requires
        0 <= upto <= pattern.len(),
        forall|k: int| 0 <= k < upto ==> pattern[k] != '{',
    ensures
        open_count(pattern, upto) == 0,
    decreases upto,
{
    if upto > 0 {
        lemma_no_open(pattern, upto - 1);
    }
}

/// A segment ends where the run of name characters behind its brace ends.
proof fn lemma_segment_close(pattern: Seq<char>, open: int, end: int, c: int)
    requires
        0 <= open < end <= pattern.len(),
        forall|k: int| open < k < end ==> name_char(#[trigger] pattern[k]),
        end < pattern.len() ==> !name_char(pattern[end]),
        segment(pattern, open, c),
    ensures
        c == end,
{
    if c < end {
        assert(name_char(pattern[c]));
    }
    if end < c {
        assert(name_char(pattern[end]));
    }
}

/// A segment that begins at `open` has one end.
proof fn lemma_segment_unique(pattern: Seq<char>, open: int, c1: int, c2: int)
    requires
        segment(pattern, open, c1),
        segment(pattern, open, c2),
    ensures
        c1 == c2,
{
    if c1 < c2 {
        assert(name_char(pattern[c1]));
    }
    if c2 < c1 {
        assert(name_char(pattern[c2]));
    }
}

fn is_name_char(c: char) -> (r: bool)
    ensures
        r == name_char(c),
{
    ('a' <= c && c <= 'z') || ('A' <= c && c <= 'Z') || ('0' <= c && c <= '9') || c == '_'
}

fn is_name_start(c: char) -> (r: bool)
    ensures
        r == name_start(c),
{
    ('a' <= c && c <= 'z') || ('A' <= c && c <= 'Z') || c == '_'
}

/// The index of the first opening brace, or the length where there is none.
fn find_open(pattern: &str, n: usize) -> (open: usize)
    requires
        n == pattern@.len(),
    ensures
        open <= n,
        forall|k: int| 0 <= k < open ==> pattern@[k] != '{',
        open < n ==> pattern@[open as int] == '{',
{
    let mut i: usize = 0;
    while i < n
        invariant
            n == pattern@.len(),
            i <= n,
            forall|k: int| 0 <= k < i ==> pattern@[k] != '{',
        decreases n - i,
    {
        if pattern.get_char(i) == '{' {
            return i;
        }
        i += 1;
    }
    n
}

/// The characters of `pattern`.
fn to_chars(pattern: &str, n: usize) -> (chars: Vec<char>)
    requires
        n == pattern@.len(),
    ensures
        chars@ == pattern@,
{
    let mut chars: Vec<char> = Vec::new();
    let mut i: usize = 0;
    while i < n
        invariant
            n == pattern@.len(),
            i <= n,
            chars@.len() == i,
            forall|k: int| 0 <= k < i ==> chars@[k] == pattern@[k],
        decreases n - i,
    {
        chars.push(pattern.get_char(i));
        i += 1;
    }
    assert(chars@ =~= pattern@);
    chars
}

/// The index at which the run of name characters that begins at `from` ends.
fn name_end(chars: &Vec<char>, from: usize) -> (end: usize)
    requires
        from <= chars@.len(),
    ensures
        from <= end <= chars@.len(),
        forall|k: int| from <= k < end ==> name_char(#[trigger] chars@[k]),
        end < chars@.len() ==> !name_char(chars@[end as int]),
{
    let n: usize = chars.len();
    let mut i: usize = from;
    while i < n
        invariant
            n == chars@.len(),
            from <= i <= n,
            forall|k: int| from <= k < i ==> name_char(#[trigger] chars@[k]),
        decreases n - i,
    {
        if !is_name_char(chars[i]) {
            return i;
        }
        i += 1;
    }
    n
}

/// The segments of a pattern, each with its two ends, in order; nothing
/// where an opening brace begins no segment.
fn scan_segments(chars: &Vec<char>) -> (r: Option<(Vec<usize>, Vec<usize>)>)
    ensures
        match r {
            Some((opens, closes)) => {
                &&& opens@.len() == closes@.len()
                &&& opens@.len() == open_count(chars@, chars@.len() as int)
                &&& forall|k: int|
                    0 <= k < opens@.len() ==> segment(
                        chars@,
                        #[trigger] opens@[k] as int,
                        closes@[k] as int,
                    )
                &&& forall|a: int, b: int|
                    0 <= a < b < opens@.len() ==> (#[trigger] opens@[a]) < (#[trigger] opens@[b])
                &&& forall|o: int|
                    0 <= o < chars@.len() && #[trigger] chars@[o] == '{' ==> exists|k: int|
                        0 <= k < opens@.len() && #[trigger] opens@[k] == o
            },
            None => exists|o: int|
                0 <= o < chars@.len() && #[trigger] chars@[o] == '{' && forall|c: int|
                    !segment(chars@, o, c),
        },
{
    let n: usize = chars.len();
    let mut opens: Vec<usize> = Vec::new();
    let mut closes: Vec<usize> = Vec::new();
    let mut i: usize = 0;
    while i < n
        invariant
            n == chars@.len(),
            i <= n,
            opens@.len() == closes@.len(),
            opens@.len() == open_count(chars@, i as int),
            forall|k: int|
                0 <= k < opens@.len() ==> segment(
                    chars@,
                    #[trigger] opens@[k] as int,
                    closes@[k] as int,
                ) && opens@[k] < i,
            forall|a: int, b: int|
                0 <= a < b < opens@.len() ==> (#[trigger] opens@[a]) < (#[trigger] opens@[b]),
            forall|o: int|
                0 <= o < i && #[trigger] chars@[o] == '{' ==> exists|k: int|
                    0 <= k < opens@.len() && #[trigger] opens@[k] == o,
        decreases n - i,
    {
        if chars[i] == '{' {
            let end: usize = name_end(chars, i + 1);
            proof {
                assert forall|c: int| segment(chars@, i as int, c) implies c == end by {
                    lemma_segment_close(chars@, i as int, end as int, c);
                }
            }
            if end >= n || chars[end] != '}' || !is_name_start(chars[i + 1]) {
                assert(chars@[i as int] == '{');
                return None;
            }
            let ghost before = opens@;
            opens.push(i);
            closes.push(end);
            proof {
                assert(opens@[before.len() as int] == i);
                assert forall|o: int| 0 <= o < i + 1 && #[trigger] chars@[o] == '{' implies exists|
                    k: int,
                |
                    0 <= k < opens@.len() && #[trigger] opens@[k] == o by {
                    if o < i {
                        let k = choose|k: int| 0 <= k < before.len() && #[trigger] before[k] == o;
                        assert(opens@[k] == o);
                    }
                }
            }
        }
        i += 1;
    }
    Some((opens, closes))
}

/// Whether two stretches of the pattern hold the same name.
fn names_equal(chars: &Vec<char>, o1: usize, c1: usize, o2: usize, c2: usize) -> (r: bool)
    requires
        o1 < c1 <= chars@.len(),
        o2 < c2 <= chars@.len(),
    ensures
        r == (segment_name(chars@, o1 as int, c1 as int) == segment_name(
            chars@,
            o2 as int,
            c2 as int,
        )),
{
    let ghost first = segment_name(chars@, o1 as int, c1 as int);
    let ghost second = segment_name(chars@, o2 as int, c2 as int);
    if c1 - o1 != c2 - o2 {
        assert(first.len() != second.len());
        return false;
    }
    let len: usize = c1 - o1 - 1;
    let mut k: usize = 0;
    while k < len
        invariant
            o1 < c1 <= chars@.len(),
            o2 < c2 <= chars@.len(),
            len == c1 - o1 - 1,
            len == c2 - o2 - 1,
            k <= len,
            first == segment_name(chars@, o1 as int, c1 as int),
            second == segment_name(chars@, o2 as int, c2 as int),
            forall|j: int| 0 <= j < k ==> first[j] == second[j],
        decreases len - k,
    {
        if chars[o1 + 1 + k] != chars[o2 + 1 + k] {
            assert(first[k as int] != second[k as int]);
            return false;
        }
        k += 1;
    }
    assert(first =~= second);
    true
}

/// Whether no two of the segments have the same name.
fn distinct_names(chars: &Vec<char>, opens: &Vec<usize>, closes: &Vec<usize>) -> (r: bool)
    requires
        opens@.len() == closes@.len(),
        forall|k: int|
            0 <= k < opens@.len() ==> segment(chars@, #[trigger] opens@[k] as int, closes@[k] as int),
    ensures
        r == forall|a: int, b: int|
            0 <= a < b < opens@.len() ==> segment_name(
                chars@,
                #[trigger] opens@[a] as int,
                closes@[a] as int,
            ) != segment_name(chars@, #[trigger] opens@[b] as int, closes@[b] as int),
{
    let m: usize = opens.len();
    let mut a: usize = 0;
    while a < m
        invariant
            m == opens@.len(),
            m == closes@.len(),
            a <= m,
            forall|k: int|
                0 <= k < opens@.len() ==> segment(
                    chars@,
                    #[trigger] opens@[k] as int,
                    closes@[k] as int,
                ),
            forall|x: int, y: int|
                0 <= x < a && x < y < m ==> segment_name(
                    chars@,
                    #[trigger] opens@[x] as int,
                    closes@[x] as int,
                ) != segment_name(chars@, #[trigger] opens@[y] as int, closes@[y] as int),
        decreases m - a,
    {
        let mut b: usize = a + 1;
        while b < m
            invariant
                m == opens@.len(),
                m == closes@.len(),
                a < b <= m,
                forall|k: int|
                    0 <= k < opens@.len() ==> segment(
                        chars@,
                        #[trigger] opens@[k] as int,
                        closes@[k] as int,
                    ),
                forall|y: int|
                    a < y < b ==> segment_name(chars@, opens@[a as int] as int, closes@[a as int] as int)
                        != segment_name(chars@, #[trigger] opens@[y] as int, closes@[y] as int),
            decreases m - b,
        {
            assert(segment(chars@, opens@[a as int] as int, closes@[a as int] as int));
            assert(segment(chars@, opens@[b as int] as int, closes@[b as int] as int));
            if names_equal(chars, opens[a], closes[a], opens[b], closes[b]) {
                return false;
            }
            b += 1;
        }
        a += 1;
    }
    true
}

/// Whether `pattern` is one that is registered, decided at run time.
pub fn is_admitted_pattern(pattern: &str) -> (r: bool)
    ensures
        r == admitted_pattern(pattern@),
{
    let n: usize = pattern.unicode_len();
    let open: usize = find_open(pattern, n);
    if open == n {
        proof {
            lemma_no_open(pattern@, n as int);
        }
        return n == 0 || pattern.get_char(n - 1) != '*';
    }
    assert(!literal_pattern(pattern@));
    if n > MAX_CAPTURE_PATTERN {
        return false;
    }
    let chars = to_chars(pattern, n);
    match scan_segments(&chars) {
        None => false,
        Some((opens, closes)) => {
            assert(chars@[open as int] == '{');
            if opens.len() > MAX_SEGMENTS {
                return false;
            }
            let distinct = distinct_names(&chars, &opens, &closes);
            proof {
                let p = pattern@;
                if distinct {
                    assert forall|o1: int, c1: int, o2: int, c2: int|
                        #[trigger] segment(p, o1, c1) && #[trigger] segment(p, o2, c2) && o1
                            != o2 implies segment_name(p, o1, c1) != segment_name(p, o2, c2) by {
                        let k1 = choose|k: int| 0 <= k < opens@.len() && #[trigger] opens@[k] == o1;
                        let k2 = choose|k: int| 0 <= k < opens@.len() && #[trigger] opens@[k] == o2;
                        lemma_segment_unique(p, o1, c1, closes@[k1] as int);
                        lemma_segment_unique(p, o2, c2, closes@[k2] as int);
                    }
                    assert forall|o: int| 0 <= o < p.len() && #[trigger] p[o] == '{' implies exists|
                        c: int,
                    |
                        segment(p, o, c) by {
                        let k = choose|k: int| 0 <= k < opens@.len() && #[trigger] opens@[k] == o;
                        assert(segment(p, o, closes@[k] as int));
                    }
                } else {
                    let (a, b) = choose|a: int, b: int|
                        0 <= a < b < opens@.len() && segment_name(
                            p,
                            #[trigger] opens@[a] as int,
                            closes@[a] as int,
                        ) == segment_name(p, #[trigger] opens@[b] as int, closes@[b] as int);
                    assert(segment(p, opens@[a] as int, closes@[a] as int));
                    assert(segment(p, opens@[b] as int, closes@[b] as int));
                    assert(opens@[a] < opens@[b]);
                }
            }
            distinct
        },
    }
}

} // verus!
