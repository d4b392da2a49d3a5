//! Character-level text handling: character classes, trimming, line and
//! segment splitting, case-insensitive search, and the few std character
//! and string calls that the parser relies on.
use vstd::prelude::*;
use vstd::utf8::*;

verus! {

broadcast use vstd::string::group_string_axioms;

// ---------------------------------------------------------------------------
// Trusted std character and string calls
// ---------------------------------------------------------------------------

/// Whether a character beyond ASCII has the Unicode `White_Space` property,
/// as `char::is_whitespace` reports it.
pub uninterp spec fn non_ascii_whitespace(c: char) -> bool;

/// Whether a character beyond ASCII is alphabetic or numeric in Unicode, as
/// `char::is_alphanumeric` reports it.
pub uninterp spec fn non_ascii_alphanumeric(c: char) -> bool;

/// What `String::from_utf8_lossy` makes of bytes that are not valid UTF-8.
pub uninterp spec fn utf8_lossy_invalid(bytes: Seq<u8>) -> Seq<char>;

/// The Unicode `White_Space` property: on ASCII the space and the control
/// characters from tab to carriage return.
pub open spec fn is_whitespace_char(c: char) -> bool {
    if (c as u32) < 128 {
        c == ' ' || ('\t' <= c && c <= '\r')
    } else {
        non_ascii_whitespace(c)
    }
}

/// Alphabetic or numeric in Unicode: on ASCII the letters and the digits.
pub open spec fn is_alphanumeric_char(c: char) -> bool {
    if (c as u32) < 128 {
        is_ascii_alnum(c)
    } else {
        non_ascii_alphanumeric(c)
    }
}

/// Reading bytes as UTF-8, invalid sequences replaced: valid UTF-8 is decoded.
pub open spec fn lossy_utf8(bytes: Seq<u8>) -> Seq<char> {
    if valid_utf8(bytes) {
        decode_utf8(bytes)
    } else {
        utf8_lossy_invalid(bytes)
    }
}

/// Calls `char::is_whitespace`. On ASCII the documented `White_Space` set is
/// stated (space, tab to carriage return); beyond ASCII the result is named
/// `non_ascii_whitespace(c)`.
#[verifier::external_body]
pub(crate) fn char_is_whitespace(c: char) -> (b: bool)
    ensures
        b == is_whitespace_char(c),
        (c as u32) >= 128 ==> b == non_ascii_whitespace(c),
{
    c.is_whitespace()
}

/// Calls `char::is_alphanumeric`. On ASCII it holds exactly of letters and
/// digits (alphabetic or numeric, as documented); beyond ASCII the result is
/// named `non_ascii_alphanumeric(c)`.
#[verifier::external_body]
pub(crate) fn char_is_alphanumeric(c: char) -> (b: bool)
    ensures
        b == is_alphanumeric_char(c),
        (c as u32) >= 128 ==> b == non_ascii_alphanumeric(c),
{
    c.is_alphanumeric()
}

/// Calls `String::push`, which appends one character.
#[verifier::external_body]
pub(crate) fn string_push(s: &mut String, c: char)
    ensures
        final(s)@ == old(s)@.push(c),
{
    s.push(c);
}

/// Calls `String::from_utf8_lossy`. Valid UTF-8 is decoded, as the
/// documentation promises; what replaces invalid sequences is named
/// `utf8_lossy_invalid(bytes)`.
#[verifier::external_body]
pub(crate) fn string_from_utf8_lossy(bytes: &[u8]) -> (r: String)
    ensures
        r@ == lossy_utf8(bytes@),
        !valid_utf8(bytes@) ==> r@ == utf8_lossy_invalid(bytes@),
{
    String::from_utf8_lossy(bytes).into_owned()
}

// ---------------------------------------------------------------------------
// Characters
// ---------------------------------------------------------------------------

/// ASCII letters and digits.
pub open spec fn is_ascii_alnum(c: char) -> bool {
    ('0' <= c && c <= '9') || ('a' <= c && c <= 'z') || ('A' <= c && c <= 'Z')
}

/// ASCII decimal digits.
pub open spec fn is_ascii_digit(c: char) -> bool {
    '0' <= c && c <= '9'
}

/// The ASCII lower-case form of `c`; every other character is unchanged.
pub open spec fn lower_char(c: char) -> char {
    if 'A' <= c && c <= 'Z' {
        ((c as u32) + 32) as char
    } else {
        c
    }
}

/// The ASCII lower-case form of a text.
pub open spec fn lower(s: Seq<char>) -> Seq<char> {
    s.map_values(|c: char| lower_char(c))
}

pub fn ascii_alnum(c: char) -> (b: bool)
    ensures
        b == is_ascii_alnum(c),
{
    ('0' <= c && c <= '9') || ('a' <= c && c <= 'z') || ('A' <= c && c <= 'Z')
}

pub fn ascii_digit(c: char) -> (b: bool)
    ensures
        b == is_ascii_digit(c),
{
    '0' <= c && c <= '9'
}

/// Whether the ASCII lower-case form of `c` is `l`.
pub fn lower_char_is(c: char, l: char) -> (b: bool)
    ensures
        b == (lower_char(c) == l),
{
    if 'A' <= c && c <= 'Z' {
        (c as u32) + 32 == (l as u32)
    } else {
        c == l
    }
}

/// The character classes that the parser trims and splits by.
#[derive(Clone, Copy, PartialEq, Eq, Debug)]
pub enum CharClass {
    /// Unicode white space.
    Whitespace,
    /// `<`, `>`, `"` and `'`, which often surround a pasted link.
    Quote,
    /// `,` and `;`, which may separate links on a line.
    ListSep,
    /// `/`, the path separator.
    Slash,
    /// `?` and `#`, which end the path of a URL.
    QueryOrFragment,
    /// The line feed.
    Newline,
    /// `.`, which starts a file name's extension.
    Dot,
}

pub open spec fn in_class(cls: CharClass, c: char) -> bool {
    match cls {
        CharClass::Whitespace => is_whitespace_char(c),
        CharClass::Quote => c == '<' || c == '>' || c == '"' || c == '\'',
        CharClass::ListSep => c == ',' || c == ';',
        CharClass::Slash => c == '/',
        CharClass::QueryOrFragment => c == '?' || c == '#',
        CharClass::Newline => c == '\n',
        CharClass::Dot => c == '.',
    }
}

pub fn class_contains(cls: CharClass, c: char) -> (b: bool)
    ensures
        b == in_class(cls, c),
{
    match cls {
        CharClass::Whitespace => char_is_whitespace(c),
        CharClass::Quote => c == '<' || c == '>' || c == '"' || c == '\'',
        CharClass::ListSep => c == ',' || c == ';',
        CharClass::Slash => c == '/',
        CharClass::QueryOrFragment => c == '?' || c == '#',
        CharClass::Newline => c == '\n',
        CharClass::Dot => c == '.',
    }
}

// ---------------------------------------------------------------------------
// Runs, trimming
// ---------------------------------------------------------------------------

/// The number of leading characters of `s` whose membership in `cls` is `inside`.
pub open spec fn lead(s: Seq<char>, cls: CharClass, inside: bool) -> nat
    decreases s.len(),
{
    if s.len() > 0 && in_class(cls, s[0]) == inside {
        1 + lead(s.drop_first(), cls, inside)
    } else {
        0
    }
}

/// The number of trailing characters of `s` whose membership in `cls` is `inside`.
pub open spec fn trail(s: Seq<char>, cls: CharClass, inside: bool) -> nat
    decreases s.len(),
{
    if s.len() > 0 && in_class(cls, s.last()) == inside {
        1 + trail(s.drop_last(), cls, inside)
    } else {
        0
    }
}

/// `s` without its leading and trailing characters of class `cls`
/// (what `str::trim_matches` gives with that class as the pattern).
pub open spec fn trim_class(s: Seq<char>, cls: CharClass) -> Seq<char> {
    if lead(s, cls, true) == s.len() {
        Seq::empty()
    } else {
        s.subrange(lead(s, cls, true) as int, s.len() - trail(s, cls, true))
    }
}

/// `s` without surrounding white space (what `str::trim` gives).
pub open spec fn trim(s: Seq<char>) -> Seq<char> {
    trim_class(s, CharClass::Whitespace)
}

pub proof fn lemma_lead_bound(s: Seq<char>, cls: CharClass, inside: bool)
    ensures
        lead(s, cls, inside) <= s.len(),
        lead(s, cls, inside) < s.len() ==> in_class(cls, s[lead(s, cls, inside) as int]) != inside,
        forall|t: int| 0 <= t < lead(s, cls, inside) ==> in_class(cls, #[trigger] s[t]) == inside,
    decreases s.len(),
{
    if s.len() > 0 && in_class(cls, s[0]) == inside {
        lemma_lead_bound(s.drop_first(), cls, inside);
        assert forall|t: int| 0 <= t < lead(s, cls, inside) implies in_class(cls, #[trigger] s[t])
            == inside by {
            if t > 0 {
                assert(s[t] == s.drop_first()[t - 1]);
            }
        }
    }
}

pub proof fn lemma_lead_exact(s: Seq<char>, cls: CharClass, inside: bool, k: int)
    requires
        0 <= k <= s.len(),
        forall|t: int| 0 <= t < k ==> in_class(cls, #[trigger] s[t]) == inside,
        k < s.len() ==> in_class(cls, s[k]) != inside,
    ensures
        lead(s, cls, inside) == k,
    decreases k,
{
    if k > 0 {
        assert(in_class(cls, s[0]) == inside);
        assert forall|t: int| 0 <= t < k - 1 implies in_class(cls, #[trigger] s.drop_first()[t])
            == inside by {
            assert(s.drop_first()[t] == s[t + 1]);
        }
        lemma_lead_exact(s.drop_first(), cls, inside, k - 1);
    }
}

pub proof fn lemma_trail_bound(s: Seq<char>, cls: CharClass, inside: bool)
    ensures
        trail(s, cls, inside) <= s.len(),
        trail(s, cls, inside) < s.len() ==> in_class(cls, s[s.len() - 1 - trail(s, cls, inside)])
            != inside,
        forall|t: int|
            s.len() - trail(s, cls, inside) <= t < s.len() ==> in_class(cls, #[trigger] s[t])
                == inside,
    decreases s.len(),
{
    if s.len() > 0 && in_class(cls, s.last()) == inside {
        lemma_trail_bound(s.drop_last(), cls, inside);
        assert forall|t: int| s.len() - trail(s, cls, inside) <= t < s.len() implies in_class(
            cls,
            #[trigger] s[t],
        ) == inside by {
            if t < s.len() - 1 {
                assert(s[t] == s.drop_last()[t]);
            }
        }
    }
}

pub proof fn lemma_trail_exact(s: Seq<char>, cls: CharClass, inside: bool, k: int)
    requires
        0 <= k <= s.len(),
        forall|t: int| s.len() - k <= t < s.len() ==> in_class(cls, #[trigger] s[t]) == inside,
        k < s.len() ==> in_class(cls, s[s.len() - 1 - k]) != inside,
    ensures
        trail(s, cls, inside) == k,
    decreases k,
{
    if k > 0 {
        assert(in_class(cls, s[s.len() - 1]) == inside);
        assert forall|t: int| s.drop_last().len() - (k - 1) <= t < s.drop_last().len() implies in_class(
            cls,
            #[trigger] s.drop_last()[t],
        ) == inside by {
            assert(s.drop_last()[t] == s[t]);
        }
        lemma_trail_exact(s.drop_last(), cls, inside, k - 1);
    }
}

/// The number of characters from position `from` on whose membership in `cls` is `inside`.
pub fn lead_len(v: &Vec<char>, from: usize, cls: CharClass, inside: bool) -> (k: usize)
    requires
        from <= v.len(),
    ensures
        from + k <= v.len(),
        k == lead(v@.subrange(from as int, v.len() as int), cls, inside),
{
    let mut j = from;
    while j < v.len() && class_contains(cls, v[j]) == inside
        invariant
            from <= j <= v.len(),
            forall|t: int| from <= t < j ==> in_class(cls, #[trigger] v@[t]) == inside,
        decreases v.len() - j,
    {
        j = j + 1;
    }
    proof {
        let s = v@.subrange(from as int, v.len() as int);
        assert forall|t: int| 0 <= t < j - from implies in_class(cls, #[trigger] s[t]) == inside by {
            assert(s[t] == v@[from + t]);
        }
        if j < v.len() {
            assert(s[j - from] == v@[j as int]);
        }
        lemma_lead_exact(s, cls, inside, j - from);
    }
    j - from
}

/// The number of trailing characters of `v` whose membership in `cls` is `inside`.
pub fn trail_len(v: &Vec<char>, cls: CharClass, inside: bool) -> (k: usize)
    ensures
        k == trail(v@, cls, inside),
{
    let mut j = v.len();
    while j > 0 && class_contains(cls, v[j - 1]) == inside
        invariant
            j <= v.len(),
            forall|t: int| j <= t < v.len() ==> in_class(cls, #[trigger] v@[t]) == inside,
        decreases j,
    {
        j = j - 1;
    }
    proof {
        lemma_trail_exact(v@, cls, inside, (v.len() - j) as int);
    }
    v.len() - j
}

/// The characters of `v` from `a` up to `b`.
pub fn copy_range(v: &Vec<char>, a: usize, b: usize) -> (r: Vec<char>)
    requires
        a <= b <= v.len(),
    ensures
        r@ == v@.subrange(a as int, b as int),
{
    let mut r: Vec<char> = Vec::new();
    let mut i = a;
    while i < b
        invariant
            a <= i <= b <= v.len(),
            r@ == v@.subrange(a as int, i as int),
        decreases b - i,
    {
        r.push(v[i]);
        i = i + 1;
    }
    r
}

/// `v` without its leading and trailing characters of class `cls`.
pub fn trim_chars(v: &Vec<char>, cls: CharClass) -> (r: Vec<char>)
    ensures
        r@ == trim_class(v@, cls),
{
    let a = lead_len(v, 0, cls, true);
    proof {
        assert(v@.subrange(0, v.len() as int) == v@);
    }
    if a == v.len() {
        return Vec::new();
    }
    proof {
        lemma_lead_bound(v@, cls, true);
    }
    let mut j = v.len();
    while j > a && class_contains(cls, v[j - 1])
        invariant
            a < v.len(),
            a <= j <= v.len(),
            !in_class(cls, v@[a as int]),
            forall|t: int| j <= t < v.len() ==> in_class(cls, #[trigger] v@[t]),
        decreases j,
    {
        j = j - 1;
    }
    proof {
        let k = v.len() - j;
        if j > a {
            assert(!in_class(cls, v@[v.len() - 1 - k]));
        }
        lemma_trail_exact(v@, cls, true, k as int);
    }
    copy_range(v, a, j)
}

// ---------------------------------------------------------------------------
// Lines and segments
// ---------------------------------------------------------------------------

/// A line without its final carriage return.
pub open spec fn strip_cr(l: Seq<char>) -> Seq<char> {
    if l.len() > 0 && l.last() == '\r' {
        l.drop_last()
    } else {
        l
    }
}

/// The lines of `s` as `str::lines` yields them: split at each line feed,
/// a carriage return right before the line feed dropped, no line after a
/// final line feed.
pub open spec fn lines(s: Seq<char>) -> Seq<Seq<char>>
    decreases s.len(),
{
    if s.len() == 0 {
        Seq::empty()
    } else {
        let k = lead(s, CharClass::Newline, false);
        if k >= s.len() {
            seq![s]
        } else {
            seq![strip_cr(s.take(k as int))] + lines(s.skip((k + 1) as int))
        }
    }
}

/// The maximal runs of characters outside `cls` in `s`, in order (the
/// non-empty pieces of splitting `s` at each character of `cls`).
pub open spec fn segments(s: Seq<char>, cls: CharClass) -> Seq<Seq<char>>
    decreases s.len(),
{
    if s.len() == 0 {
        Seq::empty()
    } else if in_class(cls, s[0]) {
        segments(s.drop_first(), cls)
    } else {
        let k = lead(s, cls, false);
        if k == 0 || k > s.len() {
            Seq::empty()
        } else {
            seq![s.take(k as int)] + segments(s.skip(k as int), cls)
        }
    }
}

/// The texts held by a sequence of character vectors.
pub open spec fn seq_views(vs: Seq<Vec<char>>) -> Seq<Seq<char>> {
    vs.map_values(|v: Vec<char>| v@)
}

/// The lines of `v`.
pub fn split_lines(v: &Vec<char>) -> (r: Vec<Vec<char>>)
    ensures
        seq_views(r@) == lines(v@),
{
    let mut r: Vec<Vec<char>> = Vec::new();
    let mut i: usize = 0;
    proof {
        assert(v@.skip(0) == v@);
    }
    while i < v.len()
        invariant
            i <= v.len(),
            seq_views(r@) + lines(v@.skip(i as int)) == lines(v@),
        decreases v.len() - i,
    {
        let k = lead_len(v, i, CharClass::Newline, false);
        let ghost s = v@.skip(i as int);
        proof {
            assert(v@.subrange(i as int, v.len() as int) == s);
            lemma_lead_bound(s, CharClass::Newline, false);
        }
        let ghost old_r = seq_views(r@);
        if i + k == v.len() {
            let line = copy_range(v, i, v.len());
            r.push(line);
            proof {
                assert(lines(s) == seq![s]);
                assert(seq_views(r@) =~= old_r.push(s));
                assert(v@.skip(v.len() as int) == Seq::<char>::empty());
                assert(lines(v@.skip(v.len() as int)) == Seq::<Seq<char>>::empty());
                assert(seq_views(r@) + lines(v@.skip(v.len() as int)) == old_r + lines(s));
            }
            i = v.len();
        } else {
            let line = if k > 0 && v[i + k - 1] == '\r' {
                copy_range(v, i, i + k - 1)
            } else {
                copy_range(v, i, i + k)
            };
            proof {
                assert(s.take(k as int) == v@.subrange(i as int, (i + k) as int));
                assert(line@ == strip_cr(s.take(k as int)));
                assert(s.skip(k + 1) == v@.skip(i + k + 1));
                assert(lines(s) == seq![strip_cr(s.take(k as int))] + lines(s.skip(k + 1)));
            }
            r.push(line);
            proof {
                assert(seq_views(r@) =~= old_r.push(line@));
                assert(seq_views(r@) + lines(v@.skip(i + k + 1)) == old_r + lines(s));
            }
            i = i + k + 1;
        }
    }
    proof {
        assert(v@.skip(i as int) == Seq::<char>::empty());
        assert(lines(v@.skip(i as int)) == Seq::<Seq<char>>::empty());
        assert(seq_views(r@) + Seq::<Seq<char>>::empty() == seq_views(r@));
    }
    r
}

/// The segments of `v` between characters of `cls`.
pub fn split_segments(v: &Vec<char>, cls: CharClass) -> (r: Vec<Vec<char>>)
    ensures
        seq_views(r@) == segments(v@, cls),
{
    let mut r: Vec<Vec<char>> = Vec::new();
    let mut i: usize = 0;
    proof {
        assert(v@.skip(0) == v@);
    }
    while i < v.len()
        invariant
            i <= v.len(),
            seq_views(r@) + segments(v@.skip(i as int), cls) == segments(v@, cls),
        decreases v.len() - i,
    {
        let ghost s = v@.skip(i as int);
        let ghost old_r = seq_views(r@);
        if class_contains(cls, v[i]) {
            proof {
                assert(s[0] == v@[i as int]);
                assert(s.drop_first() == v@.skip(i + 1));
            }
            i = i + 1;
        } else {
            let k = lead_len(v, i, cls, false);
            proof {
                assert(v@.subrange(i as int, v.len() as int) == s);
                assert(s[0] == v@[i as int]);
                lemma_lead_bound(s, cls, false);
                assert(s.take(k as int) == v@.subrange(i as int, (i + k) as int));
                assert(s.skip(k as int) == v@.skip(i + k));
            }
            let seg = copy_range(v, i, i + k);
            r.push(seg);
            proof {
                assert(seq_views(r@) =~= old_r.push(seg@));
                assert(seq_views(r@) + segments(v@.skip(i + k), cls) == old_r + segments(s, cls));
            }
            i = i + k;
        }
    }
    proof {
        assert(v@.skip(i as int) == Seq::<char>::empty());
        assert(seq_views(r@) + Seq::<Seq<char>>::empty() == seq_views(r@));
    }
    r
}

// ---------------------------------------------------------------------------
// Search
// ---------------------------------------------------------------------------

/// The first position from `i` on where `needle` occurs in `hay`.
pub open spec fn find_from(hay: Seq<char>, needle: Seq<char>, i: int) -> Option<int>
    decreases hay.len() + 1 - i,
{
    if i < 0 || i + needle.len() > hay.len() {
        None
    } else if hay.subrange(i, i + needle.len()) == needle {
        Some(i)
    } else {
        find_from(hay, needle, i + 1)
    }
}

/// The first position where `needle` occurs in `hay` (what `str::find` gives).
pub open spec fn find(hay: Seq<char>, needle: Seq<char>) -> Option<int> {
    find_from(hay, needle, 0)
}

/// The first position where `needle` occurs in the ASCII lower-case form of `v`.
pub fn find_ignoring_case(v: &Vec<char>, needle: &Vec<char>) -> (r: Option<usize>)
    ensures
        match r {
            Some(i) => find(lower(v@), needle@) == Some(i as int),
            None => find(lower(v@), needle@) is None,
        },
{
    let ghost hay = lower(v@);
    let n = needle.len();
    if n > v.len() {
        return None;
    }
    let mut i: usize = 0;
    while i <= v.len() - n
        invariant
            n == needle.len(),
            n <= v.len(),
            hay == lower(v@),
            i <= v.len(),
            find(hay, needle@) == find_from(hay, needle@, i as int),
        decreases v.len() - i,
    {
        let mut t: usize = 0;
        let mut same = true;
        while t < n && same
            invariant
                n == needle.len(),
                i + n <= v.len(),
                hay == lower(v@),
                t <= n,
                same ==> forall|u: int| 0 <= u < t ==> hay[i + u] == #[trigger] needle@[u],
                !same ==> hay[i + t - 1] != needle@[t - 1] && t >= 1,
            decreases n - t + (if same { 1int } else { 0int }),
        {
            same = lower_char_is(v[i + t], needle[t]);
            t = t + 1;
        }
        if same {
            proof {
                assert(hay.subrange(i as int, i + n) =~= needle@);
            }
            return Some(i);
        }
        proof {
            assert(hay.subrange(i as int, i + n)[t - 1] != needle@[t - 1]);
            assert(hay.subrange(i as int, i + n) != needle@);
        }
        i = i + 1;
    }
    None
}

// ---------------------------------------------------------------------------
// Strings
// ---------------------------------------------------------------------------

/// Whether the ASCII lower-case form of `v` is `w`.
pub fn equals_ignoring_case(v: &Vec<char>, w: &Vec<char>) -> (b: bool)
    ensures
        b == (lower(v@) == w@),
{
    if v.len() != w.len() {
        return false;
    }
    let mut i: usize = 0;
    while i < v.len()
        invariant
            v.len() == w.len(),
            i <= v.len(),
            forall|t: int| 0 <= t < i ==> lower_char(#[trigger] v@[t]) == w@[t],
        decreases v.len() - i,
    {
        if !lower_char_is(v[i], w[i]) {
            assert(lower(v@)[i as int] != w@[i as int]);
            return false;
        }
        i = i + 1;
    }
    assert(lower(v@) =~= w@);
    true
}

/// The characters of `s`, in order.
pub fn chars_of(s: &str) -> (v: Vec<char>)
    ensures
        v@ == s@,
{
    let mut v: Vec<char> = Vec::new();
    for c in it: s.chars()
        invariant
            it.seq() == s@,
            v@ == it.seq().take(it.index() as int),
    {
        v.push(c);
    }
    v
}

/// A string holding the characters of `v`.
pub fn string_of(v: &Vec<char>) -> (s: String)
    ensures
        s@ == v@,
{
    let mut s = String::new();
    let mut i: usize = 0;
    while i < v.len()
        invariant
            i <= v.len(),
            s@ == v@.take(i as int),
        decreases v.len() - i,
    {
        string_push(&mut s, v[i]);
        proof {
            assert(v@.take(i + 1) == v@.take(i as int).push(v@[i as int]));
        }
        i = i + 1;
    }
    proof {
        assert(v@.take(v.len() as int) == v@);
    }
    s
}

/// Append the characters of `v` to `s`.
pub fn append_chars(s: &mut String, v: &Vec<char>)
    ensures
        final(s)@ == old(s)@ + v@,
{
    let mut i: usize = 0;
    while i < v.len()
        invariant
            i <= v.len(),
            s@ == old(s)@ + v@.take(i as int),
        decreases v.len() - i,
    {
        string_push(s, v[i]);
        proof {
            assert(v@.take(i + 1) == v@.take(i as int).push(v@[i as int]));
            assert(old(s)@ + v@.take(i + 1) =~= (old(s)@ + v@.take(i as int)).push(v@[i as int]));
        }
        i = i + 1;
    }
    proof {
        assert(v@.take(v.len() as int) == v@);
    }
}

/// A string holding the characters of `a` followed by those of `b`.
pub fn concat(a: &str, b: &str) -> (r: String)
    ensures
        r@ == a@ + b@,
{
    let mut r = a.to_owned();
    let v = chars_of(b);
    append_chars(&mut r, &v);
    r
}

/// A string holding `c` followed by the characters of `s`.
pub fn prefixed(c: char, s: &String) -> (r: String)
    ensures
        r@ == seq![c] + s@,
{
    let mut r = String::new();
    string_push(&mut r, c);
    append_chars(&mut r, &chars_of(s.as_str()));
    r
}

} // verus!
