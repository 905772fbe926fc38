//! Verified string and path-string helpers.
//!
//! Paths are modelled as plain strings with `/` separators; every helper
//! carries a contract over the `Seq<char>` view of its arguments.

use vstd::prelude::*;

verus! {

/// `p` is a prefix of `s`.
pub open spec fn starts_with(s: Seq<char>, p: Seq<char>) -> bool {
    p.len() <= s.len() && s.take(p.len() as int) == p
}

/// `p` is a suffix of `s`.
pub open spec fn ends_with(s: Seq<char>, p: Seq<char>) -> bool {
    p.len() <= s.len() && s.skip(s.len() - p.len()) == p
}

/// Character-for-character equality of two string slices.
pub fn str_eq(a: &str, b: &str) -> (r: bool)
    ensures
        r == (a@ == b@),
{
    let alen = a.unicode_len();
    let blen = b.unicode_len();
    if alen != blen {
        proof {
            assert(a@ != b@) by {
                assert(a@.len() != b@.len());
            }
        }
        return false;
    }
    let mut i: usize = 0;
    while i < alen
        invariant
            alen == a@.len(),
            alen == b@.len(),
            i <= alen,
            forall|j: int| 0 <= j < i ==> a@[j] == b@[j],
        decreases alen - i,
    {
        if a.get_char(i) != b.get_char(i) {
            return false;
        }
        i = i + 1;
    }
    proof {
        assert(a@ =~= b@);
    }
    true
}

/// Does `s` start with the prefix `p`?
pub fn str_starts_with(s: &str, p: &str) -> (r: bool)
    ensures
        r == starts_with(s@, p@),
{
    let slen = s.unicode_len();
    let plen = p.unicode_len();
    if plen > slen {
        return false;
    }
    let head = s.substring_char(0, plen);
    proof {
        assert(head@ == s@.take(plen as int));
    }
    str_eq(head, p)
}

/// Does `s` end with the suffix `p`?
pub fn str_ends_with(s: &str, p: &str) -> (r: bool)
    ensures
        r == ends_with(s@, p@),
{
    let slen = s.unicode_len();
    let plen = p.unicode_len();
    if plen > slen {
        return false;
    }
    let tail = s.substring_char(slen - plen, slen);
    proof {
        assert(tail@ == s@.skip(s@.len() - p@.len()));
    }
    str_eq(tail, p)
}

/// Index of the first occurrence of `c` in `s`, if any.
pub fn find_char(s: &str, c: char) -> (r: Option<usize>)
    ensures
        match r {
            Some(i) => i < s@.len() && s@[i as int] == c && forall|j: int|
                0 <= j < i ==> s@[j] != c,
            None => forall|j: int| 0 <= j < s@.len() ==> s@[j] != c,
        },
{
    let len = s.unicode_len();
    let mut i: usize = 0;
    while i < len
        invariant
            len == s@.len(),
            i <= len,
            forall|j: int| 0 <= j < i ==> s@[j] != c,
        decreases len - i,
    {
        if s.get_char(i) == c {
            return Some(i);
        }
        i = i + 1;
    }
    None
}

/// Index of the last occurrence of `c` in `s`, if any.
pub fn rfind_char(s: &str, c: char) -> (r: Option<usize>)
    ensures
        match r {
            Some(i) => i < s@.len() && s@[i as int] == c && forall|j: int|
                i < j < s@.len() ==> s@[j] != c,
            None => forall|j: int| 0 <= j < s@.len() ==> s@[j] != c,
        },
{
    let len = s.unicode_len();
    let mut i: usize = len;
    while i > 0
        invariant
            len == s@.len(),
            i <= len,
            forall|j: int| i <= j < len ==> s@[j] != c,
        decreases i,
    {
        i = i - 1;
        if s.get_char(i) == c {
            return Some(i);
        }
    }
    None
}

/// Does `s` contain the character `c`?
pub fn contains_char(s: &str, c: char) -> (r: bool)
    ensures
        r == exists|j: int| 0 <= j < s@.len() && s@[j] == c,
{
    match find_char(s, c) {
        Some(i) => {
            proof {
                assert(s@[i as int] == c);
            }
            true
        }
        None => false,
    }
}

/// Copy a character range of `s` into an owned string.
pub fn substring_string(s: &str, from: usize, to: usize) -> (r: String)
    requires
        from <= to <= s@.len(),
    ensures
        r@ == s@.subrange(from as int, to as int),
{
    let sub = s.substring_char(from, to);
    sub.to_owned()
}

/// Concatenation of two string slices.
pub fn concat2(a: &str, b: &str) -> (r: String)
    ensures
        r@ == a@ + b@,
{
    let mut out = a.to_owned();
    out.append(b);
    out
}

/// Concatenation of three string slices.
pub fn concat3(a: &str, b: &str, c: &str) -> (r: String)
    ensures
        r@ == a@ + b@ + c@,
{
    let mut out = a.to_owned();
    out.append(b);
    out.append(c);
    out
}

/// The characters after the last `/` of `s` (all of `s` when it has none).
pub open spec fn basename(s: Seq<char>) -> Seq<char>
    decreases s.len(),
{
    if s.len() == 0 {
        s
    } else if s.last() == '/' {
        Seq::<char>::empty()
    } else {
        basename(s.drop_last()).push(s.last())
    }
}

/// The characters before the last `/` of `s` (empty when it has none).
pub open spec fn dirname(s: Seq<char>) -> Seq<char>
    decreases s.len(),
{
    if s.len() == 0 {
        s
    } else if s.last() == '/' {
        s.drop_last()
    } else {
        dirname(s.drop_last())
    }
}

/// When `s` has no `/`, its basename is itself and its dirname is empty.
pub proof fn lemma_basename_no_slash(s: Seq<char>)
    requires
        forall|j: int| 0 <= j < s.len() ==> s[j] != '/',
    ensures
        basename(s) == s,
        dirname(s) == Seq::<char>::empty(),
    decreases s.len(),
{
    if s.len() == 0 {
        assert(basename(s) =~= s);
    } else {
        lemma_basename_no_slash(s.drop_last());
        assert(basename(s) =~= s.drop_last().push(s.last()));
        assert(s.drop_last().push(s.last()) =~= s);
    }
}

/// When the last `/` of `s` stands at `i`, the basename is the suffix
/// after it and the dirname is the prefix before it.
pub proof fn lemma_basename_split(s: Seq<char>, i: int)
    requires
        0 <= i < s.len(),
        s[i] == '/',
        forall|j: int| i < j < s.len() ==> s[j] != '/',
    ensures
        basename(s) == s.skip(i + 1),
        dirname(s) == s.take(i),
    decreases s.len(),
{
    if i == s.len() - 1 {
        assert(s.last() == '/');
        assert(basename(s) =~= s.skip(i + 1));
        assert(dirname(s) =~= s.take(i));
    } else {
        assert(s.last() != '/');
        lemma_basename_split(s.drop_last(), i);
        assert(s.drop_last().skip(i + 1).push(s.last()) =~= s.skip(i + 1));
        assert(s.drop_last().take(i) =~= s.take(i));
    }
}

/// The code point of `c`, with ASCII upper-case letters folded to lower case.
pub open spec fn lower_code(c: char) -> int {
    if 65 <= c as int && c as int <= 90 {
        c as int + 32
    } else {
        c as int
    }
}

/// The code points of `s`.
pub open spec fn codes(s: Seq<char>) -> Seq<int> {
    s.map_values(|c: char| c as int)
}

/// The case-folded code points of `s`.
pub open spec fn lower_codes(s: Seq<char>) -> Seq<int> {
    s.map_values(|c: char| lower_code(c))
}

/// Lexicographic order on code-point sequences.
pub open spec fn seq_le(a: Seq<int>, b: Seq<int>) -> bool
    decreases a.len(),
{
    if a.len() == 0 {
        true
    } else if b.len() == 0 {
        false
    } else if a[0] < b[0] {
        true
    } else if a[0] > b[0] {
        false
    } else {
        seq_le(a.skip(1), b.skip(1))
    }
}

/// Lexicographic order on strings, by code point.
pub open spec fn lex_le(a: Seq<char>, b: Seq<char>) -> bool {
    seq_le(codes(a), codes(b))
}

/// Lexicographic order on strings, by case-folded code point.
pub open spec fn lower_le(a: Seq<char>, b: Seq<char>) -> bool {
    seq_le(lower_codes(a), lower_codes(b))
}

/// `seq_le` is total.
pub proof fn lemma_seq_le_total(a: Seq<int>, b: Seq<int>)
    ensures
        seq_le(a, b) || seq_le(b, a),
    decreases a.len(),
{
    if a.len() != 0 && b.len() != 0 && a[0] == b[0] {
        lemma_seq_le_total(a.skip(1), b.skip(1));
    }
}

/// `seq_le` is transitive.
pub proof fn lemma_seq_le_trans(a: Seq<int>, b: Seq<int>, c: Seq<int>)
    requires
        seq_le(a, b),
        seq_le(b, c),
    ensures
        seq_le(a, c),
    decreases a.len(),
{
    if a.len() != 0 && b.len() != 0 && c.len() != 0 && a[0] == b[0] && b[0] == c[0] {
        lemma_seq_le_trans(a.skip(1), b.skip(1), c.skip(1));
    }
}

/// Dropping an equal prefix does not change the order.
proof fn lemma_seq_le_skip(a: Seq<int>, b: Seq<int>, i: int)
    requires
        0 <= i <= a.len(),
        i <= b.len(),
        forall|j: int| 0 <= j < i ==> a[j] == b[j],
    ensures
        seq_le(a, b) == seq_le(a.skip(i), b.skip(i)),
    decreases i,
{
    if i > 0 {
        assert(a.len() != 0 && b.len() != 0 && a[0] == b[0]);
        assert(seq_le(a, b) == seq_le(a.skip(1), b.skip(1)));
        lemma_seq_le_skip(a.skip(1), b.skip(1), i - 1);
        assert(a.skip(1).skip(i - 1) =~= a.skip(i));
        assert(b.skip(1).skip(i - 1) =~= b.skip(i));
    } else {
        assert(a.skip(0) =~= a);
        assert(b.skip(0) =~= b);
    }
}

/// Compare two strings by case-folded code point, lexicographically.
pub fn le_ignore_case(a: &str, b: &str) -> (r: bool)
    ensures
        r == lower_le(a@, b@),
{
    let alen = a.unicode_len();
    let blen = b.unicode_len();
    let min: usize = if alen < blen {
        alen
    } else {
        blen
    };
    let mut i: usize = 0;
    while i < min
        invariant
            alen == a@.len(),
            blen == b@.len(),
            min == if alen < blen {
                alen as int
            } else {
                blen as int
            },
            i <= min,
            forall|j: int| 0 <= j < i ==> lower_codes(a@)[j] == lower_codes(b@)[j],
        decreases min - i,
    {
        let ca = lower_code_of(a.get_char(i));
        let cb = lower_code_of(b.get_char(i));
        proof {
            let ga = lower_codes(a@);
            let gb = lower_codes(b@);
            lemma_seq_le_skip(ga, gb, i as int);
            assert(ga.skip(i as int)[0] == ga[i as int]);
            assert(gb.skip(i as int)[0] == gb[i as int]);
            assert(ga[i as int] == lower_code(a@[i as int]));
            assert(gb[i as int] == lower_code(b@[i as int]));
        }
        if ca < cb {
            return true;
        }
        if ca > cb {
            return false;
        }
        i = i + 1;
    }
    proof {
        lemma_seq_le_skip(lower_codes(a@), lower_codes(b@), min as int);
        assert(lower_codes(a@).skip(min as int).len() == alen - min);
        assert(lower_codes(b@).skip(min as int).len() == blen - min);
    }
    alen <= blen
}

/// Compare two strings by code point, lexicographically.
pub fn le_lex(a: &str, b: &str) -> (r: bool)
    ensures
        r == lex_le(a@, b@),
{
    let alen = a.unicode_len();
    let blen = b.unicode_len();
    let min: usize = if alen < blen {
        alen
    } else {
        blen
    };
    let mut i: usize = 0;
    while i < min
        invariant
            alen == a@.len(),
            blen == b@.len(),
            min == if alen < blen {
                alen as int
            } else {
                blen as int
            },
            i <= min,
            forall|j: int| 0 <= j < i ==> codes(a@)[j] == codes(b@)[j],
        decreases min - i,
    {
        let ca = code_of(a.get_char(i));
        let cb = code_of(b.get_char(i));
        proof {
            let ga = codes(a@);
            let gb = codes(b@);
            lemma_seq_le_skip(ga, gb, i as int);
            assert(ga.skip(i as int)[0] == ga[i as int]);
            assert(gb.skip(i as int)[0] == gb[i as int]);
            assert(ga[i as int] == a@[i as int] as int);
            assert(gb[i as int] == b@[i as int] as int);
        }
        if ca < cb {
            return true;
        }
        if ca > cb {
            return false;
        }
        i = i + 1;
    }
    proof {
        lemma_seq_le_skip(codes(a@), codes(b@), min as int);
        assert(codes(a@).skip(min as int).len() == alen - min);
        assert(codes(b@).skip(min as int).len() == blen - min);
    }
    alen <= blen
}

/// The code point of one character.
pub fn code_of(c: char) -> (r: u32)
    ensures
        r as int == c as int,
{
    c as u32
}

/// The case-folded code point of one character.
pub fn lower_code_of(c: char) -> (r: u32)
    ensures
        r as int == lower_code(c),
{
    let u = code_of(c);
    if 65 <= u && u <= 90 {
        u + 32
    } else {
        u
    }
}

/// Strings whose code sequences are `seq_le` in both directions are equal.
pub proof fn lemma_codes_le_antisym(a: Seq<char>, b: Seq<char>)
    requires
        seq_le(codes(a), codes(b)),
        seq_le(codes(b), codes(a)),
    ensures
        a == b,
    decreases a.len(),
{
    if a.len() == 0 {
        assert(codes(b).len() == 0);
        assert(a =~= b);
    } else {
        assert(codes(a)[0] == codes(b)[0]);
        assert(a[0] as int == b[0] as int);
        assert(a[0] == b[0]);
        assert(codes(a).skip(1) =~= codes(a.skip(1)));
        assert(codes(b).skip(1) =~= codes(b.skip(1)));
        lemma_codes_le_antisym(a.skip(1), b.skip(1));
        assert(a =~= seq![a[0]] + a.skip(1));
        assert(b =~= seq![b[0]] + b.skip(1));
    }
}

/// The decimal digit character for `d`.
pub open spec fn dec_digit(d: int) -> char {
    if d == 0 {
        '0'
    } else if d == 1 {
        '1'
    } else if d == 2 {
        '2'
    } else if d == 3 {
        '3'
    } else if d == 4 {
        '4'
    } else if d == 5 {
        '5'
    } else if d == 6 {
        '6'
    } else if d == 7 {
        '7'
    } else if d == 8 {
        '8'
    } else {
        '9'
    }
}

/// The decimal rendering of a non-negative integer.
pub open spec fn dec_rep(n: int) -> Seq<char>
    decreases n,
{
    if n < 10 {
        seq![dec_digit(n)]
    } else {
        dec_rep(n / 10).push(dec_digit(n % 10))
    }
}

/// The decimal rendering of an integer, with a sign when negative.
pub open spec fn int_rep(v: int) -> Seq<char> {
    if v < 0 {
        seq!['-'] + dec_rep(-v)
    } else {
        dec_rep(v)
    }
}

/// One decimal digit as a string slice.
fn digit_str(d: u64) -> (r: &'static str)
    requires
        d < 10,
    ensures
        r@ == seq![dec_digit(d as int)],
{
    if d == 0 {
        proof {
            reveal_strlit("0");
        }
        let r = "0";
        proof {
            assert(r@ =~= seq![dec_digit(d as int)]);
        }
        r
    } else if d == 1 {
        proof {
            reveal_strlit("1");
        }
        let r = "1";
        proof {
            assert(r@ =~= seq![dec_digit(d as int)]);
        }
        r
    } else if d == 2 {
        proof {
            reveal_strlit("2");
        }
        let r = "2";
        proof {
            assert(r@ =~= seq![dec_digit(d as int)]);
        }
        r
    } else if d == 3 {
        proof {
            reveal_strlit("3");
        }
        let r = "3";
        proof {
            assert(r@ =~= seq![dec_digit(d as int)]);
        }
        r
    } else if d == 4 {
        proof {
            reveal_strlit("4");
        }
        let r = "4";
        proof {
            assert(r@ =~= seq![dec_digit(d as int)]);
        }
        r
    } else if d == 5 {
        proof {
            reveal_strlit("5");
        }
        let r = "5";
        proof {
            assert(r@ =~= seq![dec_digit(d as int)]);
        }
        r
    } else if d == 6 {
        proof {
            reveal_strlit("6");
        }
        let r = "6";
        proof {
            assert(r@ =~= seq![dec_digit(d as int)]);
        }
        r
    } else if d == 7 {
        proof {
            reveal_strlit("7");
        }
        let r = "7";
        proof {
            assert(r@ =~= seq![dec_digit(d as int)]);
        }
        r
    } else if d == 8 {
        proof {
            reveal_strlit("8");
        }
        let r = "8";
        proof {
            assert(r@ =~= seq![dec_digit(d as int)]);
        }
        r
    } else {
        proof {
            reveal_strlit("9");
        }
        let r = "9";
        proof {
            assert(r@ =~= seq![dec_digit(d as int)]);
        }
        r
    }
}

/// Render a non-negative integer in decimal.
pub fn u64_to_string(n: u64) -> (r: String)
    ensures
        r@ == dec_rep(n as int),
    decreases n,
{
    if n < 10 {
        digit_str(n).to_owned()
    } else {
        let mut head = u64_to_string(n / 10);
        head.append(digit_str(n % 10));
        head
    }
}

/// Render a signed integer in decimal.
pub fn i64_to_string(v: i64) -> (r: String)
    ensures
        r@ == int_rep(v as int),
{
    if v >= 0 {
        u64_to_string(v as u64)
    } else {
        proof {
            reveal_strlit("-");
        }
        let mag: u64 = ((-(v + 1)) as u64) + 1;
        proof {
            assert(mag as int == -(v as int));
        }
        let mut out = ("-").to_owned();
        proof {
            assert(out@ =~= seq!['-']);
        }
        out.append(u64_to_string(mag).as_str());
        out
    }
}

/// Equality of two strings up to ASCII case.
pub fn eq_ignore_case(a: &str, b: &str) -> (r: bool)
    ensures
        r == (lower_codes(a@) == lower_codes(b@)),
{
    let alen = a.unicode_len();
    let blen = b.unicode_len();
    if alen != blen {
        proof {
            assert(lower_codes(a@).len() != lower_codes(b@).len());
        }
        return false;
    }
    let mut i: usize = 0;
    while i < alen
        invariant
            alen == a@.len(),
            alen == b@.len(),
            i <= alen,
            forall|j: int| 0 <= j < i ==> lower_codes(a@)[j] == lower_codes(b@)[j],
        decreases alen - i,
    {
        let ca = lower_code_of(a.get_char(i));
        let cb = lower_code_of(b.get_char(i));
        proof {
            assert(lower_codes(a@)[i as int] == lower_code(a@[i as int]));
            assert(lower_codes(b@)[i as int] == lower_code(b@[i as int]));
        }
        if ca != cb {
            return false;
        }
        i = i + 1;
    }
    proof {
        assert(lower_codes(a@) =~= lower_codes(b@));
    }
    true
}

/// Join a relative path onto a base directory: an absolute path
/// replaces the base, an empty base disappears, and exactly one `/`
/// separates the two otherwise.
pub open spec fn path_join(base: Seq<char>, p: Seq<char>) -> Seq<char> {
    if p.len() > 0 && p[0] == '/' {
        p
    } else if base.len() == 0 {
        p
    } else if base.last() == '/' {
        base + p
    } else {
        base + seq!['/'] + p
    }
}

/// Executable path join.
pub fn path_join_exec(base: &str, p: &str) -> (r: String)
    ensures
        r@ == path_join(base@, p@),
{
    proof {
        reveal_strlit("/");
        assert("/"@ =~= seq!['/']);
    }
    let plen = p.unicode_len();
    if plen > 0 && p.get_char(0) == '/' {
        return p.to_owned();
    }
    let blen = base.unicode_len();
    if blen == 0 {
        return p.to_owned();
    }
    if base.get_char(blen - 1) == '/' {
        concat2(base, p)
    } else {
        concat3(base, "/", p)
    }
}

/// Index of the first occurrence of `c` in `s`, or -1.
pub open spec fn first_index(s: Seq<char>, c: char) -> int
    decreases s.len(),
{
    if s.len() == 0 {
        -1
    } else if s[0] == c {
        0
    } else if first_index(s.skip(1), c) == -1 {
        -1
    } else {
        first_index(s.skip(1), c) + 1
    }
}

/// `first_index` finds exactly the first occurrence.
pub proof fn lemma_first_index(s: Seq<char>, c: char)
    ensures
        (exists|j: int| 0 <= j < s.len() && s[j] == c) ==> {
            let fi = first_index(s, c);
            &&& 0 <= fi < s.len()
            &&& s[fi] == c
            &&& forall|j: int| 0 <= j < fi ==> s[j] != c
        },
        !(exists|j: int| 0 <= j < s.len() && s[j] == c) ==> first_index(s, c) == -1,
    decreases s.len(),
{
    if s.len() != 0 && s[0] != c {
        let t = s.skip(1);
        lemma_first_index(t, c);
        if exists|j: int| 0 <= j < s.len() && s[j] == c {
            let w = choose|j: int| 0 <= j < s.len() && s[j] == c;
            assert(w >= 1);
            assert(t[w - 1] == c);
            let fi1 = first_index(t, c);
            assert(0 <= fi1 < t.len() && t[fi1] == c);
            assert(first_index(s, c) == fi1 + 1);
            assert(s[fi1 + 1] == c);
            assert forall|j: int| 0 <= j < fi1 + 1 implies s[j] != c by {
                if j >= 1 {
                    assert(t[j - 1] != c);
                }
            }
        } else {
            assert forall|j: int| 0 <= j < t.len() implies t[j] != c by {
                assert(s[j + 1] != c);
            }
            assert(first_index(t, c) == -1);
        }
    }
}

/// Split `s` at every occurrence of `c`; a trailing separator yields a
/// final empty piece, and the empty string is one empty piece.
pub open spec fn split_seq(s: Seq<char>, c: char) -> Seq<Seq<char>>
    decreases s.len(),
{
    let fi = first_index(s, c);
    if fi < 0 || fi >= s.len() {
        seq![s]
    } else {
        seq![s.take(fi)] + split_seq(s.skip(fi + 1), c)
    }
}

/// Split a string at every occurrence of `c`.
pub fn split_char(s: &str, c: char) -> (r: Vec<String>)
    ensures
        r@.len() == split_seq(s@, c).len(),
        forall|i: int| 0 <= i < r@.len() ==> (#[trigger] r@[i])@ == split_seq(s@, c)[i],
{
    let mut out: Vec<String> = Vec::new();
    let mut rest: String = s.to_owned();
    let ghost full = s@;
    proof {
        assert(split_seq(full, c) =~= out@.map_values(|x: String| x@) + split_seq(rest@, c));
    }
    loop
        invariant_except_break
            split_seq(full, c) == out@.map_values(|x: String| x@) + split_seq(rest@, c),
        ensures
            split_seq(full, c) == out@.map_values(|x: String| x@),
        decreases rest@.len(),
    {
        let ghost pre_out = out@;
        match find_char(rest.as_str(), c) {
            Some(i) => {
                proof {
                    lemma_first_index(rest@, c);
                    let fi = first_index(rest@, c);
                    if fi < i as int {
                        assert(rest@[fi] == c);
                    }
                    assert(fi == i as int);
                }
                let len = rest.unicode_len();
                let piece = substring_string(rest.as_str(), 0, i);
                let next = substring_string(rest.as_str(), i + 1, len);
                proof {
                    assert(piece@ =~= rest@.take(i as int));
                    assert(next@ =~= rest@.skip(i as int + 1));
                }
                let ghost pre_rest = rest@;
                out.push(piece);
                rest = next;
                proof {
                    assert(split_seq(pre_rest, c) =~= seq![pre_rest.take(i as int)] + split_seq(
                        rest@,
                        c,
                    ));
                    assert(out@.map_values(|x: String| x@) =~= pre_out.map_values(|x: String| x@)
                        + seq![pre_rest.take(i as int)]);
                    assert(out@.map_values(|x: String| x@) + split_seq(rest@, c) =~= split_seq(
                        full,
                        c,
                    ));
                }
            }
            None => {
                proof {
                    lemma_first_index(rest@, c);
                    assert(first_index(rest@, c) == -1);
                    assert(split_seq(rest@, c) =~= seq![rest@]);
                }
                out.push(rest);
                proof {
                    assert(out@.map_values(|x: String| x@) =~= pre_out.map_values(
                        |x: String| x@,
                    ) + seq![split_seq(full, c)[pre_out.len() as int]]);
                    assert(out@.map_values(|x: String| x@) =~= split_seq(full, c));
                }
                break;
            }
        }
    }
    proof {
        assert forall|i: int| 0 <= i < out@.len() implies (#[trigger] out@[i])@ == split_seq(
            full,
            c,
        )[i] by {
            assert(out@.map_values(|x: String| x@)[i] == out@[i]@);
        }
    }
    out
}

/// Whitespace: space, tab, newline, carriage return.
pub open spec fn is_ws(c: char) -> bool {
    c == ' ' || c == '\t' || c == '\n' || c == '\r'
}

/// `s` without leading whitespace.
pub open spec fn trim_start(s: Seq<char>) -> Seq<char>
    decreases s.len(),
{
    if s.len() > 0 && is_ws(s[0]) {
        trim_start(s.skip(1))
    } else {
        s
    }
}

/// `s` without trailing whitespace.
pub open spec fn trim_end(s: Seq<char>) -> Seq<char>
    decreases s.len(),
{
    if s.len() > 0 && is_ws(s.last()) {
        trim_end(s.drop_last())
    } else {
        s
    }
}

/// `s` without surrounding whitespace.
pub open spec fn trim(s: Seq<char>) -> Seq<char> {
    trim_end(trim_start(s))
}

/// Dropping a whitespace prefix is what `trim_start` does.
proof fn lemma_trim_start_at(s: Seq<char>, a: int)
    requires
        0 <= a <= s.len(),
        forall|k: int| 0 <= k < a ==> is_ws(s[k]),
        a < s.len() ==> !is_ws(s[a]),
    ensures
        trim_start(s) == s.skip(a),
    decreases a,
{
    if a == 0 {
        assert(s.skip(0) =~= s);
    } else {
        assert(is_ws(s[0]));
        lemma_trim_start_at(s.skip(1), a - 1);
        assert(s.skip(1).skip(a - 1) =~= s.skip(a));
    }
}

/// Dropping a whitespace suffix is what `trim_end` does.
proof fn lemma_trim_end_at(s: Seq<char>, b: int)
    requires
        -1 <= b < s.len(),
        forall|k: int| b < k < s.len() ==> is_ws(s[k]),
        b >= 0 ==> !is_ws(s[b]),
    ensures
        trim_end(s) == s.take(b + 1),
    decreases s.len(),
{
    if b == s.len() - 1 {
        assert(s.take(b + 1) =~= s);
    } else {
        assert(is_ws(s.last()));
        lemma_trim_end_at(s.drop_last(), b);
        assert(s.drop_last().take(b + 1) =~= s.take(b + 1));
    }
}

/// Strip surrounding whitespace from a string.
pub fn trim_ws(s: &str) -> (r: String)
    ensures
        r@ == trim(s@),
{
    let len = s.unicode_len();
    let mut a: usize = 0;
    loop
        invariant
            a <= len,
            len == s@.len(),
            forall|k: int| 0 <= k < a ==> is_ws(s@[k]),
        ensures
            a <= len,
            forall|k: int| 0 <= k < a ==> is_ws(s@[k]),
            a < len ==> !is_ws(s@[a as int]),
        decreases len - a,
    {
        if a == len {
            break;
        }
        let c = s.get_char(a);
        if !(c == ' ' || c == '\t' || c == '\n' || c == '\r') {
            break;
        }
        a = a + 1;
    }
    proof {
        lemma_trim_start_at(s@, a as int);
    }
    if a == len {
        proof {
            assert(s@.skip(a as int) =~= Seq::<char>::empty());
            assert(trim(s@) =~= Seq::<char>::empty());
        }
        return String::new();
    }
    let mut b: usize = len - 1;
    loop
        invariant
            a <= b < len,
            len == s@.len(),
            !is_ws(s@[a as int]),
            forall|k: int| b < k < len ==> is_ws(s@[k]),
        ensures
            a <= b < len,
            forall|k: int| b < k < len ==> is_ws(s@[k]),
            !is_ws(s@[b as int]),
        decreases b,
    {
        let c = s.get_char(b);
        if !(c == ' ' || c == '\t' || c == '\n' || c == '\r') {
            break;
        }
        b = b - 1;
    }
    let out = substring_string(s, a, b + 1);
    proof {
        let st = s@.skip(a as int);
        assert(st.len() == s@.len() - a);
        assert forall|k: int| (b as int - a as int) < k < st.len() implies is_ws(st[k]) by {
            assert(st[k] == s@[k + a]);
        }
        assert(st[b as int - a as int] == s@[b as int]);
        lemma_trim_end_at(st, b as int - a as int);
        assert(trim(s@) == st.take(b as int - a as int + 1));
        assert(st.take(b as int - a as int + 1) =~= s@.subrange(a as int, b as int + 1));
    }
    out
}

/// The basename of `s`, as an owned string.
pub fn basename_string(s: &str) -> (r: String)
    ensures
        r@ == basename(s@),
{
    let len = s.unicode_len();
    match rfind_char(s, '/') {
        Some(i) => {
            proof {
                lemma_basename_split(s@, i as int);
            }
            substring_string(s, i + 1, len)
        }
        None => {
            proof {
                lemma_basename_no_slash(s@);
            }
            s.to_owned()
        }
    }
}

/// The dirname of `s`, as an owned string.
pub fn dirname_string(s: &str) -> (r: String)
    ensures
        r@ == dirname(s@),
{
    match rfind_char(s, '/') {
        Some(i) => {
            proof {
                lemma_basename_split(s@, i as int);
            }
            substring_string(s, 0, i)
        }
        None => {
            proof {
                lemma_basename_no_slash(s@);
            }
            String::new()
        }
    }
}

} // verus!
