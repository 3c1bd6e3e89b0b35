//! Shared text-scanning primitives: substring search, bracket-balanced
//! scanning, trimming, and conversions between `&str`, `String` and
//! `Vec<char>`.
//!
//! All positions are character indices into the character sequence of the
//! text, and every executable function is specified against a recursive
//! spec function over `Seq<char>`.

use vstd::prelude::*;
use vstd::string::*;

verus! {

/// Relies on `String::push`: appends the given character to the end of the
/// string.
#[verifier::external_body]
pub(crate) fn push_char(s: &mut String, c: char)
    ensures
        final(s)@ == old(s)@.push(c),
{
    s.push(c);
}

/// Builds a `String` whose characters are exactly the characters of `v`.
pub fn chars_to_string(v: &Vec<char>) -> (r: String)
    ensures
        r@ == v@,
{
    let mut r = String::new();
    let mut i: usize = 0;
    while i < v.len()
        invariant
            i <= v.len(),
            r@ == v@.subrange(0, i as int),
        decreases v.len() - i,
    {
        push_char(&mut r, v[i]);
        proof {
            assert(v@.subrange(0, i as int).push(v@[i as int]) =~= v@.subrange(0, i + 1));
        }
        i += 1;
    }
    proof {
        assert(v@.subrange(0, v@.len() as int) =~= v@);
    }
    r
}

/// Collects the characters of `s` into a vector.
pub fn to_char_vec(s: &str) -> (r: Vec<char>)
    ensures
        r@ == s@,
{
    let n = s.unicode_len();
    let mut r: Vec<char> = Vec::new();
    let mut i: usize = 0;
    while i < n
        invariant
            i <= n,
            n == s@.len(),
            r@ == s@.subrange(0, i as int),
        decreases n - i,
    {
        r.push(s.get_char(i));
        proof {
            assert(s@.subrange(0, i as int).push(s@[i as int]) =~= s@.subrange(0, i + 1));
        }
        i += 1;
    }
    proof {
        assert(s@.subrange(0, n as int) =~= s@);
    }
    r
}

/// The pattern `pat` occurs in `s` at position `i`.
pub open spec fn match_at(s: Seq<char>, pat: Seq<char>, i: int) -> bool {
    0 <= i && i + pat.len() <= s.len() && s.subrange(i, i + pat.len() as int) == pat
}

/// Position of the first occurrence of `pat` in `s` at or after `i`.
pub open spec fn find_from(s: Seq<char>, pat: Seq<char>, i: int) -> Option<int>
    decreases s.len() - i,
    when 0 <= i <= s.len()
{
    if i + pat.len() > s.len() {
        None
    } else if match_at(s, pat, i) {
        Some(i)
    } else if i < s.len() {
        find_from(s, pat, i + 1)
    } else {
        None
    }
}

/// Position of the first occurrence of `pat` in `s`.
pub open spec fn find_sub(s: Seq<char>, pat: Seq<char>) -> Option<int> {
    find_from(s, pat, 0)
}

/// `pat` occurs somewhere in `s`.
pub open spec fn contains_sub(s: Seq<char>, pat: Seq<char>) -> bool {
    find_sub(s, pat) is Some
}

/// View of an optional index as an optional mathematical integer.
pub open spec fn opt_idx(o: Option<usize>) -> Option<int> {
    match o {
        Some(i) => Some(i as int),
        None => None,
    }
}

/// View of an optional value as an optional view.
pub open spec fn opt_view<T: View>(o: Option<T>) -> Option<<T as View>::V> {
    match o {
        Some(t) => Some(t@),
        None => None,
    }
}

/// View of a sequence of values as the sequence of their views.
pub open spec fn views_of<T: View>(v: Seq<T>) -> Seq<<T as View>::V> {
    Seq::new(v.len(), |i: int| v[i]@)
}

/// View of a sequence of owned strings as their character sequences.
pub open spec fn strs_of(v: Seq<String>) -> Seq<Seq<char>> {
    Seq::new(v.len(), |i: int| v[i]@)
}

/// View of an optional owned string as an optional character sequence.
pub open spec fn opt_str(o: Option<String>) -> Option<Seq<char>> {
    match o {
        Some(s) => Some(s@),
        None => None,
    }
}

/// Whether `pat` occurs exactly at position `i` of `text`.
pub fn match_here(text: &Vec<char>, pat: &Vec<char>, i: usize) -> (r: bool)
    requires
        i + pat@.len() <= text@.len(),
    ensures
        r == match_at(text@, pat@, i as int),
{
    let n = text.len();
    let m = pat.len();
    let mut j: usize = 0;
    while j < m
        invariant
            j <= m,
            n == text@.len(),
            m == pat@.len(),
            i + m <= n,
            forall|k: int| 0 <= k < j ==> text@[i + k] == pat@[k],
        decreases m - j,
    {
        if text[i + j] != pat[j] {
            proof {
                assert(text@.subrange(i as int, i + m as int)[j as int] == text@[i + j]);
            }
            return false;
        }
        j += 1;
    }
    proof {
        assert(text@.subrange(i as int, i + m as int) =~= pat@);
    }
    true
}

proof fn lemma_find_step(s: Seq<char>, pat: Seq<char>, i: int)
    requires
        0 <= i,
        pat.len() >= 1,
        i + pat.len() <= s.len(),
        !match_at(s, pat, i),
    ensures
        find_from(s, pat, i) == find_from(s, pat, i + 1),
{
}

/// Finds the first occurrence of `pat` in `text` at or after `from`.
pub fn find_pat_from(text: &Vec<char>, pat: &Vec<char>, from: usize) -> (r: Option<usize>)
    requires
        from <= text@.len(),
    ensures
        opt_idx(r) == find_from(text@, pat@, from as int),
        r matches Some(j) ==> j + pat@.len() <= text@.len() && from <= j,
{
    let n = text.len();
    let m = pat.len();
    if m == 0 {
        proof {
            assert(text@.subrange(from as int, from as int) =~= pat@);
        }
        return Some(from);
    }
    if m > n {
        return None;
    }
    let mut i = from;
    while i <= n - m
        invariant
            from <= i <= n,
            1 <= m <= n,
            n == text@.len(),
            m == pat@.len(),
            find_from(text@, pat@, from as int) == find_from(text@, pat@, i as int),
        decreases n - i,
    {
        if match_here(text, pat, i) {
            return Some(i);
        }
        proof {
            lemma_find_step(text@, pat@, i as int);
        }
        i += 1;
    }
    None
}

/// Finds the first occurrence of `pat` in `text`.
pub fn find_pat(text: &Vec<char>, pat: &Vec<char>) -> (r: Option<usize>)
    ensures
        opt_idx(r) == find_sub(text@, pat@),
        r matches Some(j) ==> j + pat@.len() <= text@.len(),
{
    find_pat_from(text, pat, 0)
}

/// Whether `pat` occurs anywhere in `text`.
pub fn contains_pat(text: &Vec<char>, pat: &Vec<char>) -> (r: bool)
    ensures
        r == contains_sub(text@, pat@),
{
    match find_pat(text, pat) {
        Some(_) => true,
        None => false,
    }
}

/// What `char::is_alphabetic` returns for a character; the result depends on
/// the character alone.
pub uninterp spec fn alphabetic_like(c: char) -> bool;

/// Relies on `char::is_alphabetic`: the Unicode `Alphabetic` property of the
/// character.
#[verifier::external_body]
pub fn char_is_alphabetic(c: char) -> (r: bool)
    ensures
        r == alphabetic_like(c),
{
    c.is_alphabetic()
}

/// What `char::is_alphanumeric` returns for a character; the result depends
/// on the character alone.
pub uninterp spec fn alphanumeric_like(c: char) -> bool;

/// Relies on `char::is_alphanumeric`: the Unicode `Alphabetic` property or
/// one of the numeric categories.
#[verifier::external_body]
pub fn char_is_alphanumeric(c: char) -> (r: bool)
    ensures
        r == alphanumeric_like(c),
{
    c.is_alphanumeric()
}

/// What `char::is_whitespace` returns for a character; the result depends on
/// the character alone.
pub uninterp spec fn whitespace_like(c: char) -> bool;

/// Relies on `char::is_whitespace`: the Unicode `White_Space` property of the
/// character.
#[verifier::external_body]
pub fn char_is_whitespace(c: char) -> (r: bool)
    ensures
        r == whitespace_like(c),
{
    c.is_whitespace()
}

/// What `char::is_uppercase` returns for a character; the result depends on
/// the character alone.
pub uninterp spec fn uppercase_like(c: char) -> bool;

/// Relies on `char::is_uppercase`: the Unicode `Uppercase` property of the
/// character.
#[verifier::external_body]
pub fn char_is_uppercase(c: char) -> (r: bool)
    ensures
        r == uppercase_like(c),
{
    c.is_uppercase()
}

/// Position of the first occurrence of character `c` in `s` at or after `i`.
pub open spec fn find_char_from(s: Seq<char>, c: char, i: int) -> Option<int>
    decreases s.len() - i,
    when 0 <= i <= s.len()
{
    if i >= s.len() {
        None
    } else if s[i] == c {
        Some(i)
    } else {
        find_char_from(s, c, i + 1)
    }
}

/// Finds the first occurrence of character `c` in `text` at or after `from`.
pub fn find_char_at(text: &Vec<char>, c: char, from: usize) -> (r: Option<usize>)
    requires
        from <= text@.len(),
    ensures
        opt_idx(r) == find_char_from(text@, c, from as int),
        r matches Some(j) ==> from <= j < text@.len(),
{
    let n = text.len();
    let mut i = from;
    while i < n
        invariant
            from <= i <= n,
            n == text@.len(),
            find_char_from(text@, c, from as int) == find_char_from(text@, c, i as int),
        decreases n - i,
    {
        if text[i] == c {
            return Some(i);
        }
        i += 1;
    }
    None
}

/// Position of the last occurrence of `pat` in `s` starting at or before `i`.
pub open spec fn rfind_from(s: Seq<char>, pat: Seq<char>, i: int) -> Option<int>
    decreases i + 1,
    when i + pat.len() <= s.len()
{
    if i < 0 {
        None
    } else if match_at(s, pat, i) {
        Some(i)
    } else {
        rfind_from(s, pat, i - 1)
    }
}

/// Position of the last occurrence of `pat` in `s`.
pub open spec fn rfind_sub(s: Seq<char>, pat: Seq<char>) -> Option<int> {
    if pat.len() > s.len() {
        None
    } else {
        rfind_from(s, pat, s.len() - pat.len())
    }
}

/// Finds the last occurrence of `pat` in `text`.
pub fn rfind_pat(text: &Vec<char>, pat: &Vec<char>) -> (r: Option<usize>)
    ensures
        opt_idx(r) == rfind_sub(text@, pat@),
        r matches Some(j) ==> j + pat@.len() <= text@.len(),
{
    let n = text.len();
    let m = pat.len();
    if m > n {
        return None;
    }
    let mut i = n - m;
    loop
        invariant
            0 <= i <= n - m,
            m <= n,
            n == text@.len(),
            m == pat@.len(),
            rfind_sub(text@, pat@) == rfind_from(text@, pat@, i as int),
        decreases i,
    {
        if match_here(text, pat, i) {
            return Some(i);
        }
        if i == 0 {
            return None;
        }
        i -= 1;
    }
}

/// Copies the characters of `text` between positions `from` and `to`.
pub fn subvec(text: &Vec<char>, from: usize, to: usize) -> (r: Vec<char>)
    requires
        from <= to <= text@.len(),
    ensures
        r@ == text@.subrange(from as int, to as int),
{
    let mut r: Vec<char> = Vec::new();
    let mut i = from;
    while i < to
        invariant
            from <= i <= to <= text@.len(),
            r@ == text@.subrange(from as int, i as int),
        decreases to - i,
    {
        r.push(text[i]);
        proof {
            assert(text@.subrange(from as int, i as int).push(text@[i as int])
                =~= text@.subrange(from as int, i + 1));
        }
        i += 1;
    }
    r
}

/// Position of the first comma that sits at the given angle-bracket nesting
/// depth, scanning from `i`; `<` and `>` raise and lower the depth.
pub open spec fn comma_from(s: Seq<char>, i: int, depth: int) -> Option<int>
    decreases s.len() - i,
    when 0 <= i <= s.len()
{
    if i >= s.len() {
        None
    } else if s[i] == '<' {
        comma_from(s, i + 1, depth + 1)
    } else if s[i] == '>' {
        comma_from(s, i + 1, depth - 1)
    } else if s[i] == ',' && depth == 0 {
        Some(i)
    } else {
        comma_from(s, i + 1, depth)
    }
}

/// Finds the first comma at the top nesting level, scanning from `start_pos`.
pub fn comma_at_depth(text: &Vec<char>, start_pos: usize) -> (r: Option<usize>)
    requires
        start_pos <= text@.len(),
    ensures
        opt_idx(r) == comma_from(text@, start_pos as int, 0),
        r matches Some(j) ==> start_pos <= j < text@.len(),
{
    let n = text.len();
    let mut i = start_pos;
    let mut opens: usize = 0;
    let mut closes: usize = 0;
    while i < n
        invariant
            start_pos <= i <= n,
            n == text@.len(),
            opens <= i - start_pos,
            closes <= i - start_pos,
            comma_from(text@, start_pos as int, 0) == comma_from(
                text@,
                i as int,
                opens as int - closes as int,
            ),
        decreases n - i,
    {
        let c = text[i];
        if c == '<' {
            opens += 1;
        } else if c == '>' {
            closes += 1;
        } else if c == ',' && opens == closes {
            return Some(i);
        }
        i += 1;
    }
    None
}

/// Position of the `>` that closes the bracket group currently open at the
/// given depth, scanning from `i`.
pub open spec fn close_from(s: Seq<char>, i: int, depth: int) -> Option<int>
    decreases s.len() - i,
    when 0 <= i <= s.len()
{
    if i >= s.len() {
        None
    } else if s[i] == '<' {
        close_from(s, i + 1, depth + 1)
    } else if s[i] == '>' {
        if depth == 1 {
            Some(i)
        } else {
            close_from(s, i + 1, depth - 1)
        }
    } else {
        close_from(s, i + 1, depth)
    }
}

/// Finds the `>` that closes the group already opened before `start_pos`.
pub fn close_pos(text: &Vec<char>, start_pos: usize) -> (r: Option<usize>)
    requires
        start_pos <= text@.len(),
    ensures
        opt_idx(r) == close_from(text@, start_pos as int, 1),
        r matches Some(j) ==> start_pos <= j < text@.len(),
{
    let n = text.len();
    let mut i = start_pos;
    let mut opens: usize = 0;
    let mut closes: usize = 0;
    while i < n
        invariant
            start_pos <= i <= n,
            n == text@.len(),
            closes <= opens <= i - start_pos,
            close_from(text@, start_pos as int, 1) == close_from(
                text@,
                i as int,
                1 + opens as int - closes as int,
            ),
        decreases n - i,
    {
        let c = text[i];
        if c == '<' {
            opens += 1;
        } else if c == '>' {
            if opens == closes {
                return Some(i);
            }
            closes += 1;
        }
        i += 1;
    }
    None
}

/// `s` with leading whitespace removed.
pub open spec fn trim_front(s: Seq<char>) -> Seq<char>
    decreases s.len(),
{
    if s.len() > 0 && whitespace_like(s[0]) {
        trim_front(s.subrange(1, s.len() as int))
    } else {
        s
    }
}

/// `s` with trailing whitespace removed.
pub open spec fn trim_back(s: Seq<char>) -> Seq<char>
    decreases s.len(),
{
    if s.len() > 0 && whitespace_like(s[s.len() - 1]) {
        trim_back(s.subrange(0, s.len() - 1))
    } else {
        s
    }
}

/// `s` with leading and trailing whitespace removed.
pub open spec fn trim_spec(s: Seq<char>) -> Seq<char> {
    trim_back(trim_front(s))
}

proof fn lemma_trim_front_at(s: Seq<char>, lo: int)
    requires
        0 <= lo <= s.len(),
        forall|k: int| 0 <= k < lo ==> whitespace_like(s[k]),
        lo == s.len() || !whitespace_like(s[lo]),
    ensures
        trim_front(s) == s.subrange(lo, s.len() as int),
    decreases lo,
{
    if lo == 0 {
        assert(s.subrange(0, s.len() as int) =~= s);
    } else {
        let s1 = s.subrange(1, s.len() as int);
        lemma_trim_front_at(s1, lo - 1);
        assert(s1.subrange(lo - 1, s1.len() as int) =~= s.subrange(lo, s.len() as int));
    }
}

proof fn lemma_trim_back_at(s: Seq<char>, hi: int)
    requires
        0 <= hi <= s.len(),
        forall|k: int| hi <= k < s.len() ==> whitespace_like(s[k]),
        hi == 0 || !whitespace_like(s[hi - 1]),
    ensures
        trim_back(s) == s.subrange(0, hi),
    decreases s.len() - hi,
{
    if hi == s.len() {
        assert(s.subrange(0, s.len() as int) =~= s);
    } else {
        let s1 = s.subrange(0, s.len() - 1);
        lemma_trim_back_at(s1, hi);
        assert(s1.subrange(0, hi) =~= s.subrange(0, hi));
    }
}

/// Index of the first character from `from` on that is not whitespace.
fn scan_ws_front(text: &Vec<char>, from: usize) -> (lo: usize)
    requires
        from <= text@.len(),
    ensures
        from <= lo <= text@.len(),
        forall|k: int| from <= k < lo ==> whitespace_like(text@[k]),
        lo == text@.len() || !whitespace_like(text@[lo as int]),
{
    let n = text.len();
    let mut i = from;
    while i < n
        invariant
            from <= i <= n,
            n == text@.len(),
            forall|k: int| from <= k < i ==> whitespace_like(text@[k]),
        decreases n - i,
    {
        if !char_is_whitespace(text[i]) {
            return i;
        }
        i += 1;
    }
    n
}

/// One past the index of the last character at or after `lo` that is not
/// whitespace, or `lo` when all of them are.
fn scan_ws_back(text: &Vec<char>, lo: usize) -> (hi: usize)
    requires
        lo <= text@.len(),
    ensures
        lo <= hi <= text@.len(),
        forall|k: int| hi <= k < text@.len() ==> whitespace_like(text@[k]),
        hi == lo || !whitespace_like(text@[hi - 1]),
{
    let n = text.len();
    let mut i = n;
    while i > lo
        invariant
            lo <= i <= n,
            n == text@.len(),
            forall|k: int| i <= k < n ==> whitespace_like(text@[k]),
        decreases i,
    {
        if !char_is_whitespace(text[i - 1]) {
            return i;
        }
        i -= 1;
    }
    lo
}

/// Removes leading and trailing whitespace.
pub fn trim_chars(text: &Vec<char>) -> (r: Vec<char>)
    ensures
        r@ == trim_spec(text@),
{
    let lo = scan_ws_front(text, 0);
    let hi = scan_ws_back(text, lo);
    proof {
        lemma_trim_front_at(text@, lo as int);
        let t = text@.subrange(lo as int, text@.len() as int);
        lemma_trim_back_at(t, hi - lo);
        assert(t.subrange(0, hi - lo) =~= text@.subrange(lo as int, hi as int));
    }
    subvec(text, lo, hi)
}

/// `s` with every trailing occurrence of the character `c` removed.
pub open spec fn trim_back_char(s: Seq<char>, c: char) -> Seq<char>
    decreases s.len(),
{
    if s.len() > 0 && s[s.len() - 1] == c {
        trim_back_char(s.subrange(0, s.len() - 1), c)
    } else {
        s
    }
}

proof fn lemma_trim_back_char_at(s: Seq<char>, c: char, hi: int)
    requires
        0 <= hi <= s.len(),
        forall|k: int| hi <= k < s.len() ==> s[k] == c,
        hi == 0 || s[hi - 1] != c,
    ensures
        trim_back_char(s, c) == s.subrange(0, hi),
    decreases s.len() - hi,
{
    if hi == s.len() {
        assert(s.subrange(0, s.len() as int) =~= s);
    } else {
        let s1 = s.subrange(0, s.len() - 1);
        lemma_trim_back_char_at(s1, c, hi);
        assert(s1.subrange(0, hi) =~= s.subrange(0, hi));
    }
}

/// Removes every trailing occurrence of the character `c`.
pub fn trim_back_char_exec(text: &Vec<char>, c: char) -> (r: Vec<char>)
    ensures
        r@ == trim_back_char(text@, c),
{
    let n = text.len();
    let mut i = n;
    while i > 0 && text[i - 1] == c
        invariant
            0 <= i <= n,
            n == text@.len(),
            forall|k: int| i <= k < n ==> text@[k] == c,
        decreases i,
    {
        i -= 1;
    }
    proof {
        lemma_trim_back_char_at(text@, c, i as int);
    }
    subvec(text, 0, i)
}

proof fn lemma_find_from_some(s: Seq<char>, pat: Seq<char>, i: int)
    requires
        0 <= i <= s.len(),
    ensures
        find_from(s, pat, i) matches Some(j) ==> i <= j && match_at(s, pat, j),
    decreases s.len() - i,
{
    if i + pat.len() > s.len() {
    } else if match_at(s, pat, i) {
    } else if i < s.len() {
        lemma_find_from_some(s, pat, i + 1);
    }
}

/// `s` with every occurrence of `pat` replaced by `rep`, scanning left to
/// right without rescanning the replacement.
pub open spec fn replace_all(s: Seq<char>, pat: Seq<char>, rep: Seq<char>) -> Seq<char>
    decreases s.len(),
    when pat.len() >= 1
    via replace_all_decreases
{
    match find_sub(s, pat) {
        Some(i) => s.subrange(0, i) + rep + replace_all(
            s.subrange(i + pat.len(), s.len() as int),
            pat,
            rep,
        ),
        None => s,
    }
}

#[via_fn]
proof fn replace_all_decreases(s: Seq<char>, pat: Seq<char>, rep: Seq<char>) {
    lemma_find_from_some(s, pat, 0);
}

/// Replaces every occurrence of `pat` in `text` by `rep`.
pub fn replace_all_chars(text: &Vec<char>, pat: &Vec<char>, rep: &Vec<char>) -> (r: Vec<char>)
    requires
        pat@.len() >= 1,
    ensures
        r@ == replace_all(text@, pat@, rep@),
    decreases text@.len(),
{
    match find_pat(text, pat) {
        None => {
            let r = subvec(text, 0, text.len());
            proof {
                assert(text@.subrange(0, text@.len() as int) =~= text@);
            }
            r
        },
        Some(i) => {
            proof {
                lemma_find_from_some(text@, pat@, 0);
            }
            let n = text.len();
            let mut r = subvec(text, 0, i);
            let mut rv = subvec(rep, 0, rep.len());
            proof {
                assert(rep@.subrange(0, rep@.len() as int) =~= rep@);
                assert(i + pat@.len() <= n);
            }
            r.append(&mut rv);
            let rest = subvec(text, i + pat.len(), n);
            let mut tail = replace_all_chars(&rest, pat, rep);
            r.append(&mut tail);
            r
        },
    }
}

/// Removing every occurrence of a non-empty pattern never lengthens the
/// text, and shortens it by at least the pattern length when the pattern
/// occurs.
pub proof fn lemma_replace_all_shrinks(s: Seq<char>, pat: Seq<char>)
    requires
        pat.len() >= 1,
    ensures
        replace_all(s, pat, Seq::empty()).len() <= s.len(),
        contains_sub(s, pat) ==> replace_all(s, pat, Seq::empty()).len() + pat.len() <= s.len(),
    decreases s.len(),
{
    lemma_find_from_some(s, pat, 0);
    match find_sub(s, pat) {
        Some(i) => {
            let tail = s.subrange(i + pat.len(), s.len() as int);
            lemma_replace_all_shrinks(tail, pat);
        },
        None => {},
    }
}

/// A text without the pattern is left unchanged by removal.
pub proof fn lemma_replace_all_absent(s: Seq<char>, pat: Seq<char>)
    requires
        pat.len() >= 1,
        !contains_sub(s, pat),
    ensures
        replace_all(s, pat, Seq::empty()) == s,
{
}

/// Whether `c` is a decimal digit.
pub open spec fn is_digit_char(c: char) -> bool {
    '0' as u32 <= c as u32 && c as u32 <= '9' as u32
}

/// The value of a decimal digit character.
pub open spec fn digit_val(c: char) -> int {
    c as u32 - '0' as u32
}

/// Every character of `s` is a decimal digit.
pub open spec fn all_digits(s: Seq<char>) -> bool {
    forall|k: int| 0 <= k < s.len() ==> is_digit_char(#[trigger] s[k])
}

/// The value of a non-empty sequence of decimal digits.
pub open spec fn digits_val(s: Seq<char>) -> int
    decreases s.len(),
{
    if s.len() == 0 {
        0
    } else {
        digits_val(s.drop_last()) * 10 + digit_val(s.last())
    }
}

/// The digits of a decimal literal: everything after an optional leading `+`.
pub open spec fn digits_part(s: Seq<char>) -> Seq<char> {
    if s.len() > 0 && s[0] == '+' {
        s.subrange(1, s.len() as int)
    } else {
        s
    }
}

/// What `str::parse::<usize>` accepts, as a mathematical value: an optional
/// leading `+`, then at least one decimal digit.
pub open spec fn parse_usize_spec(s: Seq<char>) -> Option<int> {
    let d = digits_part(s);
    if d.len() >= 1 && all_digits(d) {
        Some(digits_val(d))
    } else {
        None
    }
}

/// The decimal digit character for a value below ten.
pub open spec fn dec_digit(d: int) -> char {
    if d == 0 {
        '0'
    } else if d == 1 {
        '1'
    } else if d == 2 {
        '2'
    } else if d == 3 {
        '3'
    } else if d == 4 {
        '4'
    } else if d == 5 {
        '5'
    } else if d == 6 {
        '6'
    } else if d == 7 {
        '7'
    } else if d == 8 {
        '8'
    } else {
        '9'
    }
}

/// The decimal rendering of a non-negative number.
pub open spec fn dec_chars(n: int) -> Seq<char>
    decreases n,
    when n >= 0
{
    if n < 10 {
        seq![dec_digit(n)]
    } else {
        dec_chars(n / 10).push(dec_digit(n % 10))
    }
}

fn digit_char_of(d: usize) -> (c: char)
    requires
        d < 10,
    ensures
        c == dec_digit(d as int),
{
    match d {
        0 => '0',
        1 => '1',
        2 => '2',
        3 => '3',
        4 => '4',
        5 => '5',
        6 => '6',
        7 => '7',
        8 => '8',
        _ => '9',
    }
}

/// Renders `n` in decimal.
pub fn usize_to_chars(n: usize) -> (r: Vec<char>)
    ensures
        r@ == dec_chars(n as int),
    decreases n,
{
    if n < 10 {
        let mut v: Vec<char> = Vec::new();
        v.push(digit_char_of(n));
        proof {
            assert(v@ =~= seq![dec_digit(n as int)]);
        }
        v
    } else {
        let mut v = usize_to_chars(n / 10);
        v.push(digit_char_of(n % 10));
        v
    }
}

/// Position of the first non-whitespace character at or after `i`.
pub open spec fn skip_ws_spec(s: Seq<char>, i: int) -> int
    decreases s.len() - i,
    when 0 <= i <= s.len()
{
    if i >= s.len() {
        i
    } else if whitespace_like(s[i]) {
        skip_ws_spec(s, i + 1)
    } else {
        i
    }
}

/// Position of the first whitespace character at or after `i`.
pub open spec fn skip_word_spec(s: Seq<char>, i: int) -> int
    decreases s.len() - i,
    when 0 <= i <= s.len()
{
    if i >= s.len() {
        i
    } else if !whitespace_like(s[i]) {
        skip_word_spec(s, i + 1)
    } else {
        i
    }
}

pub proof fn lemma_skip_ws_bounds(s: Seq<char>, i: int)
    requires
        0 <= i <= s.len(),
    ensures
        i <= skip_ws_spec(s, i) <= s.len(),
    decreases s.len() - i,
{
    if i < s.len() && whitespace_like(s[i]) {
        lemma_skip_ws_bounds(s, i + 1);
    }
}

pub proof fn lemma_skip_word_bounds(s: Seq<char>, i: int)
    requires
        0 <= i <= s.len(),
    ensures
        i <= skip_word_spec(s, i) <= s.len(),
    decreases s.len() - i,
{
    if i < s.len() && !whitespace_like(s[i]) {
        lemma_skip_word_bounds(s, i + 1);
    }
}

/// Finds the first non-whitespace position at or after `from`.
pub fn skip_ws_exec(text: &Vec<char>, from: usize) -> (r: usize)
    requires
        from <= text@.len(),
    ensures
        r == skip_ws_spec(text@, from as int),
        from <= r <= text@.len(),
{
    let n = text.len();
    let mut i = from;
    while i < n
        invariant
            from <= i <= n,
            n == text@.len(),
            skip_ws_spec(text@, from as int) == skip_ws_spec(text@, i as int),
        decreases n - i,
    {
        if !char_is_whitespace(text[i]) {
            return i;
        }
        i += 1;
    }
    i
}

/// Finds the first whitespace position at or after `from`.
pub fn skip_word_exec(text: &Vec<char>, from: usize) -> (r: usize)
    requires
        from <= text@.len(),
    ensures
        r == skip_word_spec(text@, from as int),
        from <= r <= text@.len(),
{
    let n = text.len();
    let mut i = from;
    while i < n
        invariant
            from <= i <= n,
            n == text@.len(),
            skip_word_spec(text@, from as int) == skip_word_spec(text@, i as int),
        decreases n - i,
    {
        if char_is_whitespace(text[i]) {
            return i;
        }
        i += 1;
    }
    i
}

/// A character that word-trimming removes from the ends of a candidate
/// component word: anything that is not alphanumeric and not one of the
/// generic-type punctuation characters.
pub open spec fn word_trimmed(c: char) -> bool {
    !alphanumeric_like(c) && c != '<' && c != '>' && c != ','
}

/// The word with leading trimmable characters removed.
pub open spec fn word_trim_front(s: Seq<char>) -> Seq<char>
    decreases s.len(),
{
    if s.len() > 0 && word_trimmed(s[0]) {
        word_trim_front(s.subrange(1, s.len() as int))
    } else {
        s
    }
}

/// The word with trailing trimmable characters removed.
pub open spec fn word_trim_back(s: Seq<char>) -> Seq<char>
    decreases s.len(),
{
    if s.len() > 0 && word_trimmed(s[s.len() - 1]) {
        word_trim_back(s.subrange(0, s.len() - 1))
    } else {
        s
    }
}

/// The word with both ends trimmed.
pub open spec fn word_trim(s: Seq<char>) -> Seq<char> {
    word_trim_back(word_trim_front(s))
}

proof fn lemma_word_trim_front_at(s: Seq<char>, lo: int)
    requires
        0 <= lo <= s.len(),
        forall|k: int| 0 <= k < lo ==> word_trimmed(s[k]),
        lo == s.len() || !word_trimmed(s[lo]),
    ensures
        word_trim_front(s) == s.subrange(lo, s.len() as int),
    decreases lo,
{
    if lo == 0 {
        assert(s.subrange(0, s.len() as int) =~= s);
    } else {
        let s1 = s.subrange(1, s.len() as int);
        lemma_word_trim_front_at(s1, lo - 1);
        assert(s1.subrange(lo - 1, s1.len() as int) =~= s.subrange(lo, s.len() as int));
    }
}

proof fn lemma_word_trim_back_at(s: Seq<char>, hi: int)
    requires
        0 <= hi <= s.len(),
        forall|k: int| hi <= k < s.len() ==> word_trimmed(s[k]),
        hi == 0 || !word_trimmed(s[hi - 1]),
    ensures
        word_trim_back(s) == s.subrange(0, hi),
    decreases s.len() - hi,
{
    if hi == s.len() {
        assert(s.subrange(0, s.len() as int) =~= s);
    } else {
        let s1 = s.subrange(0, s.len() - 1);
        lemma_word_trim_back_at(s1, hi);
        assert(s1.subrange(0, hi) =~= s.subrange(0, hi));
    }
}

fn word_trimmed_exec(c: char) -> (r: bool)
    ensures
        r == word_trimmed(c),
{
    !char_is_alphanumeric(c) && c != '<' && c != '>' && c != ','
}

/// Trims the ends of a candidate component word.
pub fn word_trim_exec(text: &Vec<char>) -> (r: Vec<char>)
    ensures
        r@ == word_trim(text@),
{
    let n = text.len();
    let mut lo: usize = 0;
    while lo < n && word_trimmed_exec(text[lo])
        invariant
            0 <= lo <= n,
            n == text@.len(),
            forall|k: int| 0 <= k < lo ==> word_trimmed(text@[k]),
        decreases n - lo,
    {
        lo += 1;
    }
    let mut hi: usize = n;
    while hi > lo && word_trimmed_exec(text[hi - 1])
        invariant
            lo <= hi <= n,
            n == text@.len(),
            forall|k: int| hi <= k < n ==> word_trimmed(text@[k]),
        decreases hi,
    {
        hi -= 1;
    }
    proof {
        lemma_word_trim_front_at(text@, lo as int);
        let t = text@.subrange(lo as int, text@.len() as int);
        lemma_word_trim_back_at(t, hi - lo);
        assert(t.subrange(0, hi - lo) =~= text@.subrange(lo as int, hi as int));
    }
    subvec(text, lo, hi)
}

/// The last `::`-separated segment of a path-like name.
pub open spec fn last_path_segment(s: Seq<char>) -> Seq<char> {
    match rfind_sub(s, "::"@) {
        Some(p) => s.subrange(p + 2, s.len() as int),
        None => s,
    }
}

/// Keeps only the last `::`-separated segment of `text`.
pub fn last_path_segment_exec(text: &Vec<char>) -> (r: Vec<char>)
    ensures
        r@ == last_path_segment(text@),
{
    let sep = to_char_vec("::");
    proof {
        reveal_strlit("::");
    }
    match rfind_pat(text, &sep) {
        Some(p) => {
            let n = text.len();
            subvec(text, p + 2, n)
        },
        None => {
            let r = subvec(text, 0, text.len());
            proof {
                assert(text@.subrange(0, text@.len() as int) =~= text@);
            }
            r
        },
    }
}

/// Whether `text` ends with `pat`.
pub fn ends_with_pat(text: &Vec<char>, pat: &Vec<char>) -> (r: bool)
    ensures
        r == (pat@.len() <= text@.len() && match_at(text@, pat@, text@.len() - pat@.len())),
{
    if pat.len() <= text.len() {
        match_here(text, pat, text.len() - pat.len())
    } else {
        false
    }
}

} // verus!
