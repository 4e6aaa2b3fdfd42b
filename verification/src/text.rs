//! Character-level string utilities: conversions between `String` and
//! `Vec<char>`, substring search, splitting on a separator, joining, trimming
//! and decimal parsing. Everything here works on sequences of characters, the
//! view that all contracts of this crate are stated over.
use vstd::prelude::*;

verus! {

/// Relies on String::push of std: appends exactly one character.
pub assume_specification[ String::push ](s: &mut String, c: char)
    ensures
        final(s)@ == old(s)@.push(c),
;

/// Collects the characters of a string slice into a vector.
pub fn str_to_chars(s: &str) -> (r: Vec<char>)
    ensures
        r@ == s@,
{
    let n = s.unicode_len();
    let mut r: Vec<char> = Vec::new();
    let mut i: usize = 0;
    while i < n
        invariant
            n == s@.len(),
            i <= n,
            r@ == s@.take(i as int),
        decreases n - i,
    {
        let c = s.get_char(i);
        r.push(c);
        proof {
            assert(s@.take(i + 1 as int) =~= s@.take(i as int).push(s@[i as int]));
        }
        i = i + 1;
    }
    proof {
        assert(s@.take(n as int) =~= s@);
    }
    r
}

/// Builds a string from a vector of characters.
pub fn chars_to_string(v: &Vec<char>) -> (r: String)
    ensures
        r@ == v@,
{
    let mut r = String::new();
    let mut i: usize = 0;
    while i < v.len()
        invariant
            i <= v@.len(),
            r@ == v@.take(i as int),
        decreases v@.len() - i,
    {
        r.push(v[i]);
        proof {
            assert(v@.take(i + 1 as int) =~= v@.take(i as int).push(v@[i as int]));
        }
        i = i + 1;
    }
    proof {
        assert(v@.take(v@.len() as int) =~= v@);
    }
    r
}

/// Copies the characters of `s` between `from` (inclusive) and `to`
/// (exclusive) into a fresh vector.
pub fn copy_range(s: &Vec<char>, from: usize, to: usize) -> (r: Vec<char>)
    requires
        from <= to <= s@.len(),
    ensures
        r@ == s@.subrange(from as int, to as int),
{
    let mut r: Vec<char> = Vec::new();
    let mut i: usize = from;
    while i < to
        invariant
            from <= i <= to <= s@.len(),
            r@ == s@.subrange(from as int, i as int),
        decreases to - i,
    {
        r.push(s[i]);
        proof {
            assert(s@.subrange(from as int, i + 1 as int) =~= s@.subrange(from as int, i as int).push(
                s@[i as int],
            ));
        }
        i = i + 1;
    }
    r
}

/// The pattern `pat` occurs in `s` starting at position `i`.
pub open spec fn is_match_at(s: Seq<char>, pat: Seq<char>, i: int) -> bool {
    0 <= i && i + pat.len() <= s.len() && s.subrange(i, i + pat.len()) == pat
}

/// The pattern `pat` occurs somewhere in `s`.
pub open spec fn spec_contains_sub(s: Seq<char>, pat: Seq<char>) -> bool {
    exists|i: int| is_match_at(s, pat, i)
}

/// Position of the first occurrence of `pat` in `s`, if any.
pub open spec fn spec_find_first(s: Seq<char>, pat: Seq<char>) -> Option<int>
    decreases s.len(),
{
    if s.len() < pat.len() {
        None
    } else if s.subrange(0, pat.len() as int) == pat {
        Some(0)
    } else if s.len() == 0 {
        None
    } else {
        match spec_find_first(s.drop_first(), pat) {
            None => None,
            Some(j) => Some(j + 1),
        }
    }
}

/// Occurrences shift by one position when the first character is dropped.
proof fn lemma_match_shift(s: Seq<char>, pat: Seq<char>, j: int)
    requires
        s.len() >= 1,
        j >= 0,
    ensures
        is_match_at(s, pat, j + 1) == is_match_at(s.drop_first(), pat, j),
{
    if j + 1 + pat.len() <= s.len() {
        assert(s.drop_first().subrange(j, j + pat.len() as int) =~= s.subrange(
            j + 1,
            j + 1 + pat.len(),
        ));
    }
}

/// `spec_find_first` returns exactly the least occurrence position, and
/// `None` exactly when there is no occurrence.
proof fn lemma_find_first_characterization(s: Seq<char>, pat: Seq<char>, r: Option<int>)
    requires
        match r {
            Some(i) => 0 <= i && is_match_at(s, pat, i) && forall|j: int|
                0 <= j < i ==> !is_match_at(s, pat, j),
            None => forall|j: int| !is_match_at(s, pat, j),
        },
    ensures
        spec_find_first(s, pat) == r,
    decreases s.len(),
{
    match r {
        Some(i) => {
            if i == 0 {
                assert(s.subrange(0, pat.len() as int) == pat);
            } else {
                assert(!is_match_at(s, pat, 0));
                assert(s.subrange(0, pat.len() as int) != pat || s.len() < pat.len()) by {
                    if s.len() >= pat.len() && s.subrange(0, pat.len() as int) == pat {
                        assert(is_match_at(s, pat, 0));
                    }
                }
                assert(s.len() >= 1);
                lemma_match_shift(s, pat, i - 1);
                assert(is_match_at(s.drop_first(), pat, i - 1));
                assert(forall|j: int| 0 <= j < i - 1 ==> !is_match_at(s.drop_first(), pat, j))
                    by {
                    assert forall|j: int| 0 <= j < i - 1 implies !is_match_at(
                        s.drop_first(),
                        pat,
                        j,
                    ) by {
                        lemma_match_shift(s, pat, j);
                        assert(!is_match_at(s, pat, j + 1));
                    }
                }
                lemma_find_first_characterization(s.drop_first(), pat, Some(i - 1));
            }
        },
        None => {
            if s.len() < pat.len() {
            } else if s.subrange(0, pat.len() as int) == pat {
                assert(is_match_at(s, pat, 0));
            } else if s.len() == 0 {
            } else {
                assert(forall|j: int| !is_match_at(s.drop_first(), pat, j)) by {
                    assert forall|j: int| !is_match_at(s.drop_first(), pat, j) by {
                        if j >= 0 {
                            lemma_match_shift(s, pat, j);
                            assert(!is_match_at(s, pat, j + 1));
                        }
                    }
                }
                lemma_find_first_characterization(s.drop_first(), pat, None);
            }
        },
    }
}

/// Finds the first occurrence of `pat` in `hay`, scanning from the front.
pub fn find_sub(hay: &Vec<char>, pat: &Vec<char>) -> (r: Option<usize>)
    requires
        pat@.len() >= 1,
    ensures
        r matches Some(i) ==> is_match_at(hay@, pat@, i as int) && (forall|j: int|
            0 <= j < i ==> !is_match_at(hay@, pat@, j)) && spec_find_first(hay@, pat@) == Some(
            i as int,
        ),
        r is None ==> (forall|j: int| !is_match_at(hay@, pat@, j)) && spec_find_first(hay@, pat@)
            is None,
{
    if pat.len() > hay.len() {
        proof {
            lemma_find_first_characterization(hay@, pat@, None);
        }
        return None;
    }
    let mut i: usize = 0;
    let bound = hay.len() - pat.len();
    while i <= bound
        invariant
            1 <= pat@.len() <= hay@.len(),
            hay@.len() <= usize::MAX,
            bound == hay@.len() - pat@.len(),
            i <= bound + 1,
            forall|j: int| 0 <= j < i ==> !is_match_at(hay@, pat@, j),
        decreases bound + 1 - i,
    {
        let mut k: usize = 0;
        let mut ok = true;
        while k < pat.len()
            invariant
                1 <= pat@.len(),
                hay@.len() <= usize::MAX,
                i + pat@.len() <= hay@.len(),
                k <= pat@.len(),
                ok ==> forall|t: int| 0 <= t < k ==> hay@[i + t] == pat@[t],
                !ok ==> !is_match_at(hay@, pat@, i as int),
            decreases pat@.len() - k,
        {
            if hay[i + k] != pat[k] {
                proof {
                    if is_match_at(hay@, pat@, i as int) {
                        assert(hay@.subrange(i as int, i + pat@.len())[k as int] == hay@[i + k]);
                    }
                }
                ok = false;
                k = pat.len();
            } else {
                k = k + 1;
            }
        }
        if ok {
            proof {
                assert(hay@.subrange(i as int, i + pat@.len()) =~= pat@);
                lemma_find_first_characterization(hay@, pat@, Some(i as int));
            }
            return Some(i);
        }
        i = i + 1;
    }
    proof {
        assert forall|j: int| !is_match_at(hay@, pat@, j) by {
            if 0 <= j && j + pat@.len() <= hay@.len() {
                assert(j < i);
            }
        }
        lemma_find_first_characterization(hay@, pat@, None);
    }
    None
}

/// Substring containment test; an empty pattern is contained in anything.
pub fn contains_sub(hay: &Vec<char>, pat: &Vec<char>) -> (r: bool)
    ensures
        r == spec_contains_sub(hay@, pat@),
{
    if pat.len() == 0 {
        proof {
            assert(hay@.subrange(0, 0) =~= pat@);
            assert(is_match_at(hay@, pat@, 0));
        }
        true
    } else {
        match find_sub(hay, pat) {
            Some(i) => {
                proof {
                    assert(is_match_at(hay@, pat@, i as int));
                }
                true
            },
            None => false,
        }
    }
}

/// Splits `s` at every occurrence of `sep`, left to right. The separator
/// itself is dropped; adjacent separators yield empty pieces, and the result
/// always has one piece more than there are occurrences.
pub open spec fn spec_split(s: Seq<char>, sep: Seq<char>) -> Seq<Seq<char>>
    decreases s.len(),
{
    if sep.len() == 0 {
        seq![s]
    } else {
        match spec_find_first(s, sep) {
            None => seq![s],
            Some(i) => if 0 <= i && i + sep.len() <= s.len() {
                seq![s.subrange(0, i)] + spec_split(s.subrange(i + sep.len(), s.len() as int), sep)
            } else {
                seq![s]
            },
        }
    }
}

/// Splits a character vector on a separator, per `spec_split`.
pub fn split_chars(s: &Vec<char>, sep: &Vec<char>) -> (r: Vec<Vec<char>>)
    requires
        sep@.len() >= 1,
    ensures
        r.deep_view() == spec_split(s@, sep@),
{
    let mut parts: Vec<Vec<char>> = Vec::new();
    let mut rest: Vec<char> = copy_range(s, 0, s.len());
    proof {
        assert(rest@ =~= s@);
        assert(parts.deep_view() =~= Seq::<Seq<char>>::empty());
        assert(Seq::<Seq<char>>::empty() + spec_split(rest@, sep@) =~= spec_split(s@, sep@));
    }
    loop
        invariant_except_break
            sep@.len() >= 1,
            spec_split(s@, sep@) == parts.deep_view() + spec_split(rest@, sep@),
        ensures
            parts.deep_view() == spec_split(s@, sep@),
        decreases rest@.len(),
    {
        let ghost parts0 = parts.deep_view();
        let ghost rest0 = rest@;
        match find_sub(&rest, sep) {
            Some(i) => {
                let piece = copy_range(&rest, 0, i);
                let rl = rest.len();
                let new_rest = copy_range(&rest, i + sep.len(), rl);
                parts.push(piece);
                proof {
                    assert(spec_split(rest0, sep@) == seq![rest0.subrange(0, i as int)]
                        + spec_split(rest0.subrange(i + sep@.len(), rest0.len() as int), sep@));
                    assert(piece.deep_view() =~= piece@);
                    assert(parts.deep_view() =~~= parts0.push(piece@));
                    assert(parts0.push(piece@) + spec_split(new_rest@, sep@) =~= parts0 + (seq![
                        rest0.subrange(0, i as int),
                    ] + spec_split(new_rest@, sep@)));
                }
                rest = new_rest;
            },
            None => {
                proof {
                    assert(spec_split(rest0, sep@) == seq![rest0]);
                }
                parts.push(rest);
                proof {
                    assert(parts.deep_view() =~~= parts0.push(rest0));
                    assert(parts0.push(rest0) =~= parts0 + seq![rest0]);
                }
                break;
            },
        }
    }
    parts
}

/// Concatenation of `parts` with `sep` between neighbouring pieces.
pub open spec fn spec_join(parts: Seq<Seq<char>>, sep: Seq<char>) -> Seq<char>
    decreases parts.len(),
{
    if parts.len() == 0 {
        Seq::empty()
    } else if parts.len() == 1 {
        parts[0]
    } else {
        spec_join(parts.drop_last(), sep) + sep + parts.last()
    }
}

/// Joins strings with a separator, per `spec_join`.
pub fn join_strings(parts: &Vec<String>, sep: &str) -> (r: String)
    ensures
        r@ == spec_join(parts.deep_view(), sep@),
{
    let mut r = String::new();
    let mut i: usize = 0;
    while i < parts.len()
        invariant
            i <= parts@.len(),
            parts.deep_view().len() == parts@.len(),
            r@ == spec_join(parts.deep_view().take(i as int), sep@),
        decreases parts@.len() - i,
    {
        if i > 0 {
            r.append(sep);
        }
        r.append(parts[i].as_str());
        proof {
            let dv = parts.deep_view();
            assert(dv.take(i + 1 as int).drop_last() =~= dv.take(i as int));
            assert(dv.take(i + 1 as int).last() == dv[i as int]);
            assert(dv[i as int] == parts@[i as int]@);
        }
        i = i + 1;
    }
    proof {
        assert(parts.deep_view().take(parts@.len() as int) =~= parts.deep_view());
    }
    r
}

/// The Unicode white-space characters, as std's trim sees them.
pub open spec fn spec_is_space(c: char) -> bool {
    c == ' ' || c == '\t' || c == '\n' || c == '\r' || c == '\u{000B}' || c == '\u{000C}'
        || c == '\u{0085}' || c == '\u{00A0}' || c == '\u{1680}' || ('\u{2000}' <= c
        && c <= '\u{200A}') || c == '\u{2028}' || c == '\u{2029}' || c == '\u{202F}'
        || c == '\u{205F}' || c == '\u{3000}'
}

/// White-space test for a single character.
pub fn is_space(c: char) -> (r: bool)
    ensures
        r == spec_is_space(c),
{
    c == ' ' || c == '\t' || c == '\n' || c == '\r' || c == '\u{000B}' || c == '\u{000C}'
        || c == '\u{0085}' || c == '\u{00A0}' || c == '\u{1680}' || ('\u{2000}' as u32 <= c as u32
        && c as u32 <= '\u{200A}' as u32) || c == '\u{2028}' || c == '\u{2029}'
        || c == '\u{202F}' || c == '\u{205F}' || c == '\u{3000}'
}

/// `s` without its leading white space.
pub open spec fn spec_trim_start(s: Seq<char>) -> Seq<char>
    decreases s.len(),
{
    if s.len() > 0 && spec_is_space(s[0]) {
        spec_trim_start(s.drop_first())
    } else {
        s
    }
}

/// `s` without its trailing white space.
pub open spec fn spec_trim_end(s: Seq<char>) -> Seq<char>
    decreases s.len(),
{
    if s.len() > 0 && spec_is_space(s.last()) {
        spec_trim_end(s.drop_last())
    } else {
        s
    }
}

/// `s` without leading and trailing white space.
pub open spec fn spec_trim(s: Seq<char>) -> Seq<char> {
    spec_trim_end(spec_trim_start(s))
}

proof fn lemma_trim_start_chop(s: Seq<char>, a: int)
    requires
        0 <= a <= s.len(),
        forall|j: int| 0 <= j < a ==> spec_is_space(s[j]),
        a < s.len() ==> !spec_is_space(s[a]),
    ensures
        spec_trim_start(s) == s.subrange(a, s.len() as int),
    decreases a,
{
    if a == 0 {
        assert(s.subrange(0, s.len() as int) =~= s);
    } else {
        assert(spec_is_space(s[0]));
        lemma_trim_start_chop(s.drop_first(), a - 1);
        assert(s.drop_first().subrange(a - 1, s.drop_first().len() as int) =~= s.subrange(
            a,
            s.len() as int,
        ));
    }
}

proof fn lemma_trim_end_chop(s: Seq<char>, b: int)
    requires
        0 <= b <= s.len(),
        forall|j: int| b <= j < s.len() ==> spec_is_space(s[j]),
        b > 0 ==> !spec_is_space(s[b - 1]),
    ensures
        spec_trim_end(s) == s.subrange(0, b),
    decreases s.len() - b,
{
    if b == s.len() {
        assert(s.subrange(0, s.len() as int) =~= s);
    } else {
        assert(spec_is_space(s.last()));
        lemma_trim_end_chop(s.drop_last(), b);
        assert(s.drop_last().subrange(0, b) =~= s.subrange(0, b));
    }
}

/// Removes leading and trailing white space, per `spec_trim`.
pub fn trim_chars(v: &Vec<char>) -> (r: Vec<char>)
    ensures
        r@ == spec_trim(v@),
{
    let mut a: usize = 0;
    while a < v.len() && is_space(v[a])
        invariant
            a <= v@.len(),
            forall|j: int| 0 <= j < a ==> spec_is_space(v@[j]),
        decreases v@.len() - a,
    {
        a = a + 1;
    }
    let mut b: usize = v.len();
    while b > a && is_space(v[b - 1])
        invariant
            a <= b <= v@.len(),
            forall|j: int| 0 <= j < a ==> spec_is_space(v@[j]),
            forall|j: int| b <= j < v@.len() ==> spec_is_space(v@[j]),
        decreases b,
    {
        b = b - 1;
    }
    proof {
        lemma_trim_start_chop(v@, a as int);
        let t = v@.subrange(a as int, v@.len() as int);
        lemma_trim_end_chop(t, b - a as int);
        assert(t.subrange(0, b - a as int) =~= v@.subrange(a as int, b as int));
    }
    copy_range(v, a, b)
}

/// An ASCII decimal digit.
pub open spec fn spec_is_ascii_digit(c: char) -> bool {
    '0' as u32 <= c as u32 <= '9' as u32
}

/// Numeric value of a digit string, most significant digit first.
pub open spec fn spec_digits_val(s: Seq<char>) -> int
    decreases s.len(),
{
    if s.len() == 0 {
        0
    } else {
        spec_digits_val(s.drop_last()) * 10 + (s.last() as u32 - '0' as u32)
    }
}

/// `s` with one optional leading plus sign removed.
pub open spec fn spec_strip_plus(s: Seq<char>) -> Seq<char> {
    if s.len() > 0 && s[0] == '+' {
        s.drop_first()
    } else {
        s
    }
}

/// Every character of `t` is an ASCII decimal digit.
pub open spec fn spec_all_digits(t: Seq<char>) -> bool {
    forall|i: int| 0 <= i < t.len() ==> spec_is_ascii_digit(t[i])
}

/// The number that `s` denotes in decimal, if it is one that fits in `u8`:
/// an optional leading plus sign, then at least one digit, value at most 255.
pub open spec fn spec_parse_u8(s: Seq<char>) -> Option<u8> {
    if spec_strip_plus(s).len() > 0 && spec_all_digits(spec_strip_plus(s)) && spec_digits_val(
        spec_strip_plus(s),
    ) <= 255 {
        Some(spec_digits_val(spec_strip_plus(s)) as u8)
    } else {
        None
    }
}

proof fn lemma_digits_val_nonneg(s: Seq<char>)
    requires
        forall|i: int| 0 <= i < s.len() ==> spec_is_ascii_digit(s[i]),
    ensures
        spec_digits_val(s) >= 0,
    decreases s.len(),
{
    if s.len() > 0 {
        lemma_digits_val_nonneg(s.drop_last());
    }
}

/// Parses a decimal `u8`, per `spec_parse_u8`.
pub fn parse_u8_chars(v: &Vec<char>) -> (r: Option<u8>)
    ensures
        r == spec_parse_u8(v@),
{
    let start: usize = if v.len() > 0 && v[0] == '+' {
        1
    } else {
        0
    };
    let ghost t = spec_strip_plus(v@);
    proof {
        assert(t =~= v@.subrange(start as int, v@.len() as int));
    }
    if v.len() == start {
        return None;
    }
    let mut acc: u32 = 0;
    let mut i: usize = start;
    while i < v.len()
        invariant
            start <= i <= v@.len(),
            t == spec_strip_plus(v@),
            t == v@.subrange(start as int, v@.len() as int),
            forall|j: int| start <= j < i ==> spec_is_ascii_digit(v@[j]),
            spec_digits_val(v@.subrange(start as int, i as int)) <= 255 ==> acc
                == spec_digits_val(v@.subrange(start as int, i as int)),
            spec_digits_val(v@.subrange(start as int, i as int)) > 255 ==> acc == 256,
            acc <= 256,
        decreases v@.len() - i,
    {
        let c = v[i];
        let d: u32 = c as u32;
        if !(48 <= d && d <= 57) {
            proof {
                assert(t[i - start as int] == v@[i as int]);
                assert(0 <= i - (start as int) && i - (start as int) < t.len());
                assert(!spec_is_ascii_digit(t[i - start as int]));
                assert(!spec_all_digits(t));
                assert(spec_parse_u8(v@) is None);
            }
            return None;
        }
        let ghost pre = v@.subrange(start as int, i as int);
        let ghost post = v@.subrange(start as int, i + 1 as int);
        proof {
            assert(post.drop_last() =~= pre);
            assert(post.last() == v@[i as int]);
            assert(spec_digits_val(post) == spec_digits_val(pre) * 10 + (d - 48));
            lemma_digits_val_nonneg(pre);
        }
        if acc > 255 {
            acc = 256;
            proof {
                assert(spec_digits_val(pre) > 255);
                assert(spec_digits_val(post) >= spec_digits_val(pre) * 10);
                assert(spec_digits_val(post) > 255);
            }
        } else {
            let n = acc * 10 + (d - 48);
            if n > 255 {
                acc = 256;
            } else {
                acc = n;
            }
        }
        i = i + 1;
    }
    proof {
        assert(v@.subrange(start as int, v@.len() as int) =~= t);
        lemma_digits_val_nonneg(t);
    }
    if acc <= 255 {
        Some(acc as u8)
    } else {
        None
    }
}

/// `None` for the empty string, the string itself otherwise.
pub fn empty_to_none(s: String) -> (r: Option<String>)
    ensures
        s@.len() == 0 ==> r is None,
        s@.len() > 0 ==> r == Some::<String>(s),
{
    if s.as_str().is_empty() {
        None
    } else {
        Some(s)
    }
}

/// Index of the first element of `s` satisfying `p`, if any.
pub open spec fn first_index_where<T>(s: Seq<T>, p: spec_fn(T) -> bool) -> Option<int>
    decreases s.len(),
{
    if s.len() == 0 {
        None
    } else if p(s[0]) {
        Some(0)
    } else {
        match first_index_where(s.drop_first(), p) {
            None => None,
            Some(j) => Some(j + 1),
        }
    }
}

/// What `first_index_where` returns: the least satisfying index, or `None`
/// when no element satisfies `p`.
pub proof fn lemma_first_index_where<T>(s: Seq<T>, p: spec_fn(T) -> bool)
    ensures
        match first_index_where(s, p) {
            Some(i) => 0 <= i < s.len() && p(s[i]) && forall|j: int| 0 <= j < i ==> !p(s[j]),
            None => forall|j: int| 0 <= j < s.len() ==> !p(s[j]),
        },
    decreases s.len(),
{
    if s.len() > 0 && !p(s[0]) {
        lemma_first_index_where(s.drop_first(), p);
        match first_index_where(s.drop_first(), p) {
            Some(i) => {
                assert(s.drop_first()[i] == s[i + 1]);
                assert(forall|j: int| 1 <= j < i + 1 ==> s.drop_first()[j - 1] == s[j]);
            },
            None => {
                assert(forall|j: int| 1 <= j < s.len() ==> s.drop_first()[j - 1] == s[j]);
            },
        }
    }
}

/// The converse direction: exhibiting a least satisfying index (or showing
/// there is none) determines `first_index_where`.
pub proof fn lemma_first_index_where_is<T>(s: Seq<T>, p: spec_fn(T) -> bool, r: Option<int>)
    requires
        match r {
            Some(i) => 0 <= i < s.len() && p(s[i]) && forall|j: int| 0 <= j < i ==> !p(s[j]),
            None => forall|j: int| 0 <= j < s.len() ==> !p(s[j]),
        },
    ensures
        first_index_where(s, p) == r,
{
    lemma_first_index_where(s, p);
    match first_index_where(s, p) {
        Some(i) => {
            match r {
                Some(k) => {
                    if i < k {
                        assert(!p(s[i]));
                    } else if k < i {
                        assert(!p(s[k]));
                    }
                },
                None => {
                    assert(!p(s[i]));
                },
            }
        },
        None => {
            match r {
                Some(k) => {
                    assert(!p(s[k]));
                },
                None => {},
            }
        },
    }
}

/// Index of the last element of `s` satisfying `p`, if any.
pub open spec fn last_index_where<T>(s: Seq<T>, p: spec_fn(T) -> bool) -> Option<int>
    decreases s.len(),
{
    if s.len() == 0 {
        None
    } else if p(s.last()) {
        Some(s.len() - 1)
    } else {
        last_index_where(s.drop_last(), p)
    }
}

/// What `last_index_where` returns: the greatest satisfying index, or `None`
/// when no element satisfies `p`.
pub proof fn lemma_last_index_where<T>(s: Seq<T>, p: spec_fn(T) -> bool)
    ensures
        match last_index_where(s, p) {
            Some(i) => 0 <= i < s.len() && p(s[i]) && forall|j: int| i < j < s.len() ==> !p(s[j]),
            None => forall|j: int| 0 <= j < s.len() ==> !p(s[j]),
        },
    decreases s.len(),
{
    if s.len() > 0 && !p(s.last()) {
        lemma_last_index_where(s.drop_last(), p);
        assert(forall|j: int| 0 <= j < s.len() - 1 ==> s.drop_last()[j] == s[j]);
    }
}

/// The converse direction for `last_index_where`.
pub proof fn lemma_last_index_where_is<T>(s: Seq<T>, p: spec_fn(T) -> bool, r: Option<int>)
    requires
        match r {
            Some(i) => 0 <= i < s.len() && p(s[i]) && forall|j: int| i < j < s.len() ==> !p(s[j]),
            None => forall|j: int| 0 <= j < s.len() ==> !p(s[j]),
        },
    ensures
        last_index_where(s, p) == r,
{
    lemma_last_index_where(s, p);
    match last_index_where(s, p) {
        Some(i) => {
            match r {
                Some(k) => {
                    if i < k {
                        assert(!p(s[k]));
                    } else if k < i {
                        assert(!p(s[i]));
                    }
                },
                None => {
                    assert(!p(s[i]));
                },
            }
        },
        None => {
            match r {
                Some(k) => {
                    assert(!p(s[k]));
                },
                None => {},
            }
        },
    }
}

} // verus!
