//! Parsing of Instagram links and instaloader target syntax into download targets.
//!
//! The accepted forms follow instaloader's target syntax: posts (`-SHORTCODE`,
//! `/p/`, `/reel/`, `/reels/`, `/tv/`, `/share/...` and `USER/p/...` links, or a
//! bare shortcode), profiles (`instagram.com/USER`), hashtags (`#TAG`,
//! `/explore/tags/TAG`, `/tags/TAG`) and locations (`%ID`, `/explore/locations/ID`).
use vstd::prelude::*;
use vstd::utf8::encode_utf8;
use vstd::utf8::encode_scalar;

use crate::text;
use crate::text::CharClass;
use crate::text::chars_of;
use crate::text::copy_range;
use crate::text::lead_len;
use crate::text::prefixed;
use crate::text::split_lines;
use crate::text::split_segments;
use crate::text::string_of;
use crate::text::trim_chars;

verus! {

broadcast use vstd::string::group_string_axioms;

// ---------------------------------------------------------------------------
// Types
// ---------------------------------------------------------------------------

/// Why a piece of input could not be turned into a download target.
#[derive(Debug, Clone, PartialEq, Eq)]
pub enum ParseError {
    /// Nothing but white space (and quoting) was given.
    Empty,
    /// The given text, trimmed, is no link or target that is understood.
    Invalid(String),
}

/// A [`ParseError`] as a mathematical value.
pub enum ParseErrorView {
    Empty,
    Invalid(Seq<char>),
}

impl View for ParseError {
    type V = ParseErrorView;

    open spec fn view(&self) -> ParseErrorView {
        match self {
            ParseError::Empty => ParseErrorView::Empty,
            ParseError::Invalid(s) => ParseErrorView::Invalid(s@),
        }
    }
}

/// The text shown for an empty input.
pub open spec fn empty_message() -> Seq<char> {
    "请粘贴 Instagram 链接"@
}

/// The text shown before the rejected input.
pub open spec fn invalid_message_prefix() -> Seq<char> {
    "无法解析链接: "@
}

/// The user-facing message of an error.
pub open spec fn error_message(e: ParseErrorView) -> Seq<char> {
    match e {
        ParseErrorView::Empty => empty_message(),
        ParseErrorView::Invalid(s) => invalid_message_prefix() + s,
    }
}

impl ParseError {
    /// The user-facing message of this error.
    pub fn message(&self) -> (r: String)
        ensures
            r@ == error_message(self@),
    {
        match self {
            ParseError::Empty => "请粘贴 Instagram 链接".to_owned(),
            ParseError::Invalid(s) => {
                let mut r = "无法解析链接: ".to_owned();
                text::append_chars(&mut r, &chars_of(s.as_str()));
                r
            },
        }
    }
}

/// A single instaloader download target derived from a URL or native syntax.
#[derive(Debug, Clone, PartialEq, Eq)]
pub enum DownloadTarget {
    /// Single post: `instaloader -- -SHORTCODE`
    Post(String),
    /// Profile posts: `instaloader USERNAME`
    Profile(String),
    /// Hashtag posts: `instaloader "#HASHTAG"`
    Hashtag(String),
    /// Location posts: `instaloader %LOCATION_ID`
    Location(String),
}

/// A [`DownloadTarget`] as a mathematical value.
pub enum TargetView {
    Post(Seq<char>),
    Profile(Seq<char>),
    Hashtag(Seq<char>),
    Location(Seq<char>),
}

impl View for DownloadTarget {
    type V = TargetView;

    open spec fn view(&self) -> TargetView {
        match self {
            DownloadTarget::Post(s) => TargetView::Post(s@),
            DownloadTarget::Profile(s) => TargetView::Profile(s@),
            DownloadTarget::Hashtag(s) => TargetView::Hashtag(s@),
            DownloadTarget::Location(s) => TargetView::Location(s@),
        }
    }
}

/// The label shown for a target: the shortcode or user name as it is, a
/// hashtag behind `#`, a location id behind `%`.
pub open spec fn label(t: TargetView) -> Seq<char> {
    match t {
        TargetView::Post(s) => s,
        TargetView::Profile(s) => s,
        TargetView::Hashtag(s) => seq!['#'] + s,
        TargetView::Location(s) => seq!['%'] + s,
    }
}

/// The argument that names a target to instaloader: a post's shortcode
/// behind `-`, a user name as it is, a hashtag behind `#`, a location id behind `%`.
pub open spec fn engine_arg(t: TargetView) -> Seq<char> {
    match t {
        TargetView::Post(s) => seq!['-'] + s,
        TargetView::Profile(s) => s,
        TargetView::Hashtag(s) => seq!['#'] + s,
        TargetView::Location(s) => seq!['%'] + s,
    }
}

/// The directory that instaloader creates for a target under the destination.
pub open spec fn folder(t: TargetView) -> Seq<char> {
    match t {
        TargetView::Post(code) => code,
        TargetView::Profile(name) => name,
        TargetView::Hashtag(tag) => seq!['#'] + tag,
        TargetView::Location(id) => seq!['%'] + id,
    }
}

impl DownloadTarget {
    /// Label shown in the UI and stored on `DownloadResult.shortcode`.
    pub fn display_label(&self) -> (r: String)
        ensures
            r@ == label(self@),
    {
        match self {
            DownloadTarget::Post(s) => s.clone(),
            DownloadTarget::Profile(s) => s.clone(),
            DownloadTarget::Hashtag(s) => prefixed('#', s),
            DownloadTarget::Location(s) => prefixed('%', s),
        }
    }

    /// Argument passed to instaloader after `--`.
    pub fn instaloader_target(&self) -> (r: String)
        ensures
            r@ == engine_arg(self@),
    {
        match self {
            DownloadTarget::Post(s) => prefixed('-', s),
            DownloadTarget::Profile(s) => s.clone(),
            DownloadTarget::Hashtag(s) => prefixed('#', s),
            DownloadTarget::Location(s) => prefixed('%', s),
        }
    }

    /// Directory name instaloader creates under the destination.
    pub fn folder_name(&self) -> (r: String)
        ensures
            r@ == folder(self@),
    {
        match self {
            DownloadTarget::Post(s) => s.clone(),
            DownloadTarget::Profile(s) => s.clone(),
            DownloadTarget::Hashtag(s) => prefixed('#', s),
            DownloadTarget::Location(s) => prefixed('%', s),
        }
    }

    /// Whether this target is a single post.
    pub fn is_post(&self) -> (b: bool)
        ensures
            b == (self@ is Post),
    {
        match self {
            DownloadTarget::Post(_) => true,
            _ => false,
        }
    }
}

/// Whether two targets are the same (same kind, same text).
pub fn same_target(a: &DownloadTarget, b: &DownloadTarget) -> (r: bool)
    ensures
        r == (a@ == b@),
{
    match (a, b) {
        (DownloadTarget::Post(x), DownloadTarget::Post(y)) => x.eq(y),
        (DownloadTarget::Profile(x), DownloadTarget::Profile(y)) => x.eq(y),
        (DownloadTarget::Hashtag(x), DownloadTarget::Hashtag(y)) => x.eq(y),
        (DownloadTarget::Location(x), DownloadTarget::Location(y)) => x.eq(y),
        _ => false,
    }
}

// ---------------------------------------------------------------------------
// Views of results
// ---------------------------------------------------------------------------

pub open spec fn opt_target_view(o: Option<DownloadTarget>) -> Option<TargetView> {
    match o {
        Some(t) => Some(t@),
        None => None,
    }
}

pub open spec fn opt_string_view(o: Option<String>) -> Option<Seq<char>> {
    match o {
        Some(s) => Some(s@),
        None => None,
    }
}

pub open spec fn target_result_view(r: Result<DownloadTarget, ParseError>) -> Result<
    TargetView,
    ParseErrorView,
> {
    match r {
        Ok(t) => Ok(t@),
        Err(e) => Err(e@),
    }
}

pub open spec fn string_result_view(r: Result<String, ParseError>) -> Result<
    Seq<char>,
    ParseErrorView,
> {
    match r {
        Ok(s) => Ok(s@),
        Err(e) => Err(e@),
    }
}

pub open spec fn targets_view(v: Seq<DownloadTarget>) -> Seq<TargetView> {
    v.map_values(|t: DownloadTarget| t@)
}

pub open spec fn links_result_view(r: Result<Vec<DownloadTarget>, ParseError>) -> Result<
    Seq<TargetView>,
    ParseErrorView,
> {
    match r {
        Ok(v) => Ok(targets_view(v@)),
        Err(e) => Err(e@),
    }
}

// ---------------------------------------------------------------------------
// Names, shortcodes, ids
// ---------------------------------------------------------------------------

/// Characters allowed in a shortcode.
pub open spec fn shortcode_char(c: char) -> bool {
    text::is_ascii_alnum(c) || c == '_' || c == '-'
}

/// A post shortcode: 1 to 64 characters from `A-Za-z0-9_-`, at least one of
/// them a letter or digit.
pub open spec fn shortcode_ok(s: Seq<char>) -> bool {
    &&& 0 < s.len() <= 64
    &&& forall|i: int| 0 <= i < s.len() ==> #[trigger] shortcode_char(s[i])
    &&& exists|i: int| 0 <= i < s.len() && #[trigger] text::is_ascii_alnum(s[i])
}

/// Characters allowed in a user name.
pub open spec fn username_char(c: char) -> bool {
    text::is_ascii_alnum(c) || c == '_' || c == '.'
}

/// A user name without one leading `@`.
pub open spec fn username_body(s: Seq<char>) -> Seq<char> {
    if s.len() > 0 && s[0] == '@' {
        s.drop_first()
    } else {
        s
    }
}

/// A user name (after one optional `@`): 1 to 30 characters from
/// `A-Za-z0-9_.`, neither starting nor ending with `.`.
pub open spec fn username_ok(s: Seq<char>) -> bool {
    let t = username_body(s);
    &&& 0 < t.len() <= 30
    &&& t[0] != '.'
    &&& t.last() != '.'
    &&& forall|i: int| 0 <= i < t.len() ==> #[trigger] username_char(t[i])
}

/// Characters allowed in a hashtag.
pub open spec fn hashtag_char(c: char) -> bool {
    text::is_alphanumeric_char(c) || c == '_'
}

/// A hashtag name: non-empty, at most 128 bytes of UTF-8, every character
/// alphanumeric (in Unicode) or `_`.
pub open spec fn hashtag_ok(s: Seq<char>) -> bool {
    &&& 0 < s.len()
    &&& encode_utf8(s).len() <= 128
    &&& forall|i: int| 0 <= i < s.len() ==> #[trigger] hashtag_char(s[i])
}

/// A location id: 1 to 32 ASCII digits.
pub open spec fn location_ok(s: Seq<char>) -> bool {
    &&& 0 < s.len() <= 32
    &&& forall|i: int| 0 <= i < s.len() ==> #[trigger] text::is_ascii_digit(s[i])
}

/// Whether `s` is a post shortcode.
pub fn is_shortcode(s: &Vec<char>) -> (b: bool)
    ensures
        b == shortcode_ok(s@),
{
    if s.len() == 0 || s.len() > 64 {
        return false;
    }
    let mut i: usize = 0;
    let mut any = false;
    while i < s.len()
        invariant
            i <= s.len(),
            forall|t: int| 0 <= t < i ==> #[trigger] shortcode_char(s@[t]),
            any <==> exists|t: int| 0 <= t < i && #[trigger] text::is_ascii_alnum(s@[t]),
        decreases s.len() - i,
    {
        let c = s[i];
        let alnum = text::ascii_alnum(c);
        if !(alnum || c == '_' || c == '-') {
            assert(!shortcode_char(s@[i as int]));
            return false;
        }
        if alnum {
            any = true;
        }
        i = i + 1;
    }
    any
}

/// Whether `s` is a user name.
pub fn is_username(s: &Vec<char>) -> (b: bool)
    ensures
        b == username_ok(s@),
{
    let start: usize = if s.len() > 0 && s[0] == '@' {
        1
    } else {
        0
    };
    let ghost t = username_body(s@);
    proof {
        assert(t == s@.subrange(start as int, s.len() as int));
    }
    let n = s.len() - start;
    if n == 0 || n > 30 {
        return false;
    }
    if s[start] == '.' || s[s.len() - 1] == '.' {
        return false;
    }
    let mut i = start;
    while i < s.len()
        invariant
            start <= i <= s.len(),
            t == username_body(s@),
            t == s@.subrange(start as int, s.len() as int),
            forall|u: int| 0 <= u < i - start ==> #[trigger] username_char(t[u]),
        decreases s.len() - i,
    {
        let c = s[i];
        if !(text::ascii_alnum(c) || c == '_' || c == '.') {
            assert(t[i - start] == s@[i as int]);
            assert(!username_char(t[i - start]));
            return false;
        }
        i = i + 1;
    }
    true
}

/// Whether `s` is a location id.
pub fn is_location_id(s: &Vec<char>) -> (b: bool)
    ensures
        b == location_ok(s@),
{
    if s.len() == 0 || s.len() > 32 {
        return false;
    }
    let mut i: usize = 0;
    while i < s.len()
        invariant
            i <= s.len(),
            forall|t: int| 0 <= t < i ==> #[trigger] text::is_ascii_digit(s@[t]),
        decreases s.len() - i,
    {
        if !text::ascii_digit(s[i]) {
            return false;
        }
        i = i + 1;
    }
    true
}

/// The length of the UTF-8 encoding of `c`.
fn utf8_width(c: char) -> (w: u128)
    ensures
        w == encode_scalar(c as u32).len(),
{
    proof {
        vstd::utf8::char_is_scalar(c);
    }
    let u = c as u32;
    if u <= 0x7F {
        1
    } else if u <= 0x7FF {
        2
    } else if u <= 0xFFFF {
        3
    } else {
        4
    }
}

/// The number of bytes of the UTF-8 encoding of `v` (what `str::len` gives).
pub fn utf8_len(v: &Vec<char>) -> (n: u128)
    ensures
        n == encode_utf8(v@).len(),
{
    let mut i = v.len();
    let mut n: u128 = 0;
    proof {
        assert(v@.skip(v.len() as int) == Seq::<char>::empty());
    }
    while i > 0
        invariant
            i <= v.len(),
            n == encode_utf8(v@.skip(i as int)).len(),
            n <= 4 * (v.len() - i),
        decreases i,
    {
        let w = utf8_width(v[i - 1]);
        proof {
            let s = v@.skip(i - 1);
            assert(s[0] == v@[i - 1]);
            assert(s.drop_first() == v@.skip(i as int));
        }
        n = n + w;
        i = i - 1;
    }
    proof {
        assert(v@.skip(0) == v@);
    }
    n
}

/// Whether `s` is a hashtag name.
pub fn is_hashtag_name(s: &String) -> (b: bool)
    ensures
        b == hashtag_ok(s@),
{
    let v = chars_of(s.as_str());
    if v.len() == 0 || utf8_len(&v) > 128 {
        return false;
    }
    let mut i: usize = 0;
    while i < v.len()
        invariant
            i <= v.len(),
            v@ == s@,
            forall|t: int| 0 <= t < i ==> #[trigger] hashtag_char(v@[t]),
        decreases v.len() - i,
    {
        let c = v[i];
        if !(text::char_is_alphanumeric(c) || c == '_') {
            assert(!hashtag_char(v@[i as int]));
            return false;
        }
        i = i + 1;
    }
    true
}

// ---------------------------------------------------------------------------
// Percent decoding
// ---------------------------------------------------------------------------

/// The byte `%`.
pub const PERCENT: u8 = 37;

/// The byte `+`.
pub const PLUS: u8 = 43;

/// The value of a hexadecimal digit byte (`0-9`, `a-f`, `A-F`).
pub open spec fn hex_digit(b: u8) -> Option<u8> {
    if 48 <= b && b <= 57 {
        Some((b - 48) as u8)
    } else if 97 <= b && b <= 102 {
        Some((b - 87) as u8)
    } else if 65 <= b && b <= 70 {
        Some((b - 55) as u8)
    } else {
        None
    }
}

/// The byte that the two-character text `hi lo` denotes when read as a
/// base-16 `u8` (as `u8::from_str_radix(_, 16)` reads it: two hex digits, or
/// `+` and one hex digit).
pub open spec fn hex_byte(hi: u8, lo: u8) -> Option<u8> {
    if hi == PLUS {
        hex_digit(lo)
    } else {
        match (hex_digit(hi), hex_digit(lo)) {
            (Some(h), Some(l)) => Some((h * 16 + l) as u8),
            _ => None,
        }
    }
}

/// `b` with each `%` that two more bytes follow, which read as a base-16
/// byte, replaced by that byte; the scan resumes after the replaced triple.
pub open spec fn percent_decoded_bytes(b: Seq<u8>) -> Seq<u8>
    decreases b.len(),
{
    if b.len() == 0 {
        Seq::empty()
    } else if b[0] == PERCENT && 2 < b.len() {
        match hex_byte(b[1], b[2]) {
            Some(x) => seq![x] + percent_decoded_bytes(b.skip(3)),
            None => seq![b[0]] + percent_decoded_bytes(b.drop_first()),
        }
    } else {
        seq![b[0]] + percent_decoded_bytes(b.drop_first())
    }
}

/// The text that percent-decoding `s` gives: its UTF-8 bytes decoded, then
/// read back as UTF-8 with invalid sequences replaced.
pub open spec fn percent_decoded(s: Seq<char>) -> Seq<char> {
    text::lossy_utf8(percent_decoded_bytes(encode_utf8(s)))
}

fn hex_digit_value(b: u8) -> (r: Option<u8>)
    ensures
        r == hex_digit(b),
{
    if 48 <= b && b <= 57 {
        Some(b - 48)
    } else if 97 <= b && b <= 102 {
        Some(b - 87)
    } else if 65 <= b && b <= 70 {
        Some(b - 55)
    } else {
        None
    }
}

fn hex_byte_value(hi: u8, lo: u8) -> (r: Option<u8>)
    ensures
        r == hex_byte(hi, lo),
{
    if hi == PLUS {
        hex_digit_value(lo)
    } else {
        match (hex_digit_value(hi), hex_digit_value(lo)) {
            (Some(h), Some(l)) => Some(h * 16 + l),
            _ => None,
        }
    }
}

/// Decode `%XX` escapes in `s`.
pub fn percent_decode(s: &str) -> (r: String)
    ensures
        r@ == percent_decoded(s@),
{
    let bytes = s.as_bytes();
    let mut out: Vec<u8> = Vec::new();
    let mut i: usize = 0;
    proof {
        assert(bytes@.skip(0) == bytes@);
    }
    while i < bytes.len()
        invariant
            i <= bytes.len(),
            bytes@ == encode_utf8(s@),
            out@ + percent_decoded_bytes(bytes@.skip(i as int)) == percent_decoded_bytes(bytes@),
        decreases bytes.len() - i,
    {
        let ghost rest = bytes@.skip(i as int);
        let ghost old_out = out@;
        proof {
            assert(rest[0] == bytes@[i as int]);
        }
        if bytes[i] == PERCENT && bytes.len() - i > 2 {
            let decoded = hex_byte_value(bytes[i + 1], bytes[i + 2]);
            proof {
                assert(rest[1] == bytes@[i + 1]);
                assert(rest[2] == bytes@[i + 2]);
            }
            match decoded {
                Some(x) => {
                    out.push(x);
                    proof {
                        assert(rest.skip(3) == bytes@.skip(i + 3));
                        assert(out@ + percent_decoded_bytes(bytes@.skip(i + 3)) =~= old_out
                            + percent_decoded_bytes(rest));
                    }
                    i = i + 3;
                    continue ;
                },
                None => {},
            }
        }
        out.push(bytes[i]);
        proof {
            assert(rest.drop_first() == bytes@.skip(i + 1));
            assert(out@ + percent_decoded_bytes(bytes@.skip(i + 1)) =~= old_out
                + percent_decoded_bytes(rest));
        }
        i = i + 1;
    }
    proof {
        assert(bytes@.skip(i as int) == Seq::<u8>::empty());
        assert(out@ + Seq::<u8>::empty() == out@);
    }
    text::string_from_utf8_lossy(out.as_slice())
}

/// Percent-decode a run of characters.
fn decode_chars(v: &Vec<char>) -> (r: String)
    ensures
        r@ == percent_decoded(v@),
{
    let s = string_of(v);
    percent_decode(s.as_str())
}

// ---------------------------------------------------------------------------
// Keywords
// ---------------------------------------------------------------------------

pub open spec fn kw_p() -> Seq<char> {
    seq!['p']
}

pub open spec fn kw_reel() -> Seq<char> {
    seq!['r', 'e', 'e', 'l']
}

pub open spec fn kw_reels() -> Seq<char> {
    seq!['r', 'e', 'e', 'l', 's']
}

pub open spec fn kw_tv() -> Seq<char> {
    seq!['t', 'v']
}

pub open spec fn kw_share() -> Seq<char> {
    seq!['s', 'h', 'a', 'r', 'e']
}

pub open spec fn kw_explore() -> Seq<char> {
    seq!['e', 'x', 'p', 'l', 'o', 'r', 'e']
}

pub open spec fn kw_tags() -> Seq<char> {
    seq!['t', 'a', 'g', 's']
}

pub open spec fn kw_stories() -> Seq<char> {
    seq!['s', 't', 'o', 'r', 'i', 'e', 's']
}

pub open spec fn kw_locations() -> Seq<char> {
    seq!['l', 'o', 'c', 'a', 't', 'i', 'o', 'n', 's']
}

/// `instagram.com/`
pub open spec fn marker_long() -> Seq<char> {
    seq!['i', 'n', 's', 't', 'a', 'g', 'r', 'a', 'm', '.', 'c', 'o', 'm', '/']
}

/// `instagr.am/`
pub open spec fn marker_short() -> Seq<char> {
    seq!['i', 'n', 's', 't', 'a', 'g', 'r', '.', 'a', 'm', '/']
}

/// A path word (already in lower case) that names a single post.
pub open spec fn post_kind(w: Seq<char>) -> bool {
    w == kw_p() || w == kw_reel() || w == kw_reels() || w == kw_tv()
}

fn is_word(v: &Vec<char>, w: Vec<char>) -> (b: bool)
    ensures
        b == (text::lower(v@) == w@),
{
    text::equals_ignoring_case(v, &w)
}

/// Whether `v` names a single post (`p`, `reel`, `reels` or `tv`, in any ASCII case).
fn is_post_kind(v: &Vec<char>) -> (b: bool)
    ensures
        b == post_kind(text::lower(v@)),
{
    let w_p = vec!['p'];
    let w_reel = vec!['r', 'e', 'e', 'l'];
    let w_reels = vec!['r', 'e', 'e', 'l', 's'];
    let w_tv = vec!['t', 'v'];
    assert(w_p@ == kw_p() && w_reel@ == kw_reel() && w_reels@ == kw_reels() && w_tv@ == kw_tv());
    let p = text::equals_ignoring_case(v, &w_p);
    let reel = text::equals_ignoring_case(v, &w_reel);
    let reels = text::equals_ignoring_case(v, &w_reels);
    let tv = text::equals_ignoring_case(v, &w_tv);
    p || reel || reels || tv
}

// ---------------------------------------------------------------------------
// Native instaloader syntax
// ---------------------------------------------------------------------------

/// The target that native instaloader syntax denotes: `#TAG` (percent-decoded),
/// `%LOCATION_ID` or `-SHORTCODE`.
pub open spec fn native_target(s: Seq<char>) -> Option<TargetView> {
    if s.len() == 0 {
        None
    } else if s[0] == '#' {
        let tag = percent_decoded(s.drop_first());
        if hashtag_ok(tag) {
            Some(TargetView::Hashtag(tag))
        } else {
            None
        }
    } else if s[0] == '%' {
        if location_ok(s.drop_first()) {
            Some(TargetView::Location(s.drop_first()))
        } else {
            None
        }
    } else if s[0] == '-' {
        if shortcode_ok(s.drop_first()) {
            Some(TargetView::Post(s.drop_first()))
        } else {
            None
        }
    } else {
        None
    }
}

/// Read native instaloader syntax.
pub fn target_from_native(s: &Vec<char>) -> (r: Option<DownloadTarget>)
    ensures
        opt_target_view(r) == native_target(s@),
{
    if s.len() == 0 {
        return None;
    }
    let rest = copy_range(s, 1, s.len());
    proof {
        assert(rest@ == s@.drop_first());
    }
    if s[0] == '#' {
        let tag = decode_chars(&rest);
        if is_hashtag_name(&tag) {
            Some(DownloadTarget::Hashtag(tag))
        } else {
            None
        }
    } else if s[0] == '%' {
        if is_location_id(&rest) {
            Some(DownloadTarget::Location(string_of(&rest)))
        } else {
            None
        }
    } else if s[0] == '-' {
        if is_shortcode(&rest) {
            Some(DownloadTarget::Post(string_of(&rest)))
        } else {
            None
        }
    } else {
        None
    }
}

// ---------------------------------------------------------------------------
// Instagram URLs
// ---------------------------------------------------------------------------

/// What follows the host of an Instagram link: the text after the first
/// `instagram.com/` (in any ASCII case), or else after the first `instagr.am/`.
pub open spec fn instagram_path_of(s: Seq<char>) -> Option<Seq<char>> {
    match text::find(text::lower(s), marker_long()) {
        Some(i) => Some(s.skip(i + marker_long().len())),
        None => match text::find(text::lower(s), marker_short()) {
            Some(i) => Some(s.skip(i + marker_short().len())),
            None => None,
        },
    }
}

/// The non-empty `/`-separated pieces of a URL path, before any `?` or `#`.
pub open spec fn url_parts(path: Seq<char>) -> Seq<Seq<char>> {
    text::segments(path.take(text::lead(path, CharClass::QueryOrFragment, false) as int), CharClass::Slash)
}

/// The shortcode of a `/share/` link: `share/p/CODE` (or reel, reels, tv), or `share/CODE`.
pub open spec fn share_code(parts: Seq<Seq<char>>) -> Option<Seq<char>> {
    if parts.len() >= 3 && post_kind(text::lower(parts[1])) {
        if shortcode_ok(parts[2]) {
            Some(parts[2])
        } else {
            None
        }
    } else if parts.len() >= 2 {
        if shortcode_ok(parts[1]) {
            Some(parts[1])
        } else {
            None
        }
    } else {
        None
    }
}

/// The target of an `/explore/` link: `explore/tags/TAG` or `explore/locations/ID/...`.
pub open spec fn explore_of(parts: Seq<Seq<char>>) -> Option<TargetView> {
    if parts.len() < 2 {
        None
    } else if text::lower(parts[1]) == kw_tags() {
        if parts.len() >= 3 && hashtag_ok(percent_decoded(parts[2])) {
            Some(TargetView::Hashtag(percent_decoded(parts[2])))
        } else {
            None
        }
    } else if text::lower(parts[1]) == kw_locations() {
        if parts.len() >= 3 && location_ok(parts[2]) {
            Some(TargetView::Location(parts[2]))
        } else {
            None
        }
    } else {
        None
    }
}

/// The target of a link whose path starts with a user name: a post
/// (`USER/p/CODE` and the like), else the profile.
pub open spec fn username_target_of(parts: Seq<Seq<char>>) -> Option<TargetView> {
    if parts.len() == 0 || !username_ok(parts[0]) {
        None
    } else if parts.len() >= 3 && post_kind(text::lower(parts[1])) && shortcode_ok(parts[2]) {
        Some(TargetView::Post(parts[2]))
    } else {
        Some(TargetView::Profile(parts[0]))
    }
}

/// The target of an Instagram link, by the first word of its path.
pub open spec fn url_target(s: Seq<char>) -> Option<TargetView> {
    match instagram_path_of(s) {
        None => None,
        Some(path) => {
            let parts = url_parts(path);
            if parts.len() == 0 {
                None
            } else {
                let first = text::lower(parts[0]);
                if post_kind(first) {
                    if parts.len() >= 2 && shortcode_ok(parts[1]) {
                        Some(TargetView::Post(parts[1]))
                    } else {
                        None
                    }
                } else if first == kw_share() {
                    match share_code(parts) {
                        Some(code) => Some(TargetView::Post(code)),
                        None => None,
                    }
                } else if first == kw_explore() {
                    explore_of(parts)
                } else if first == kw_tags() {
                    if parts.len() >= 2 && hashtag_ok(percent_decoded(parts[1])) {
                        Some(TargetView::Hashtag(percent_decoded(parts[1])))
                    } else {
                        None
                    }
                } else if first == kw_stories() {
                    None
                } else {
                    username_target_of(parts)
                }
            }
        },
    }
}

proof fn lemma_find_from(hay: Seq<char>, needle: Seq<char>, i: int)
    ensures
        text::find_from(hay, needle, i) matches Some(j) ==> 0 <= i <= j && j + needle.len()
            <= hay.len(),
    decreases hay.len() + 1 - i,
{
    if !(i < 0 || i + needle.len() > hay.len()) && hay.subrange(i, i + needle.len()) != needle {
        lemma_find_from(hay, needle, i + 1);
    }
}

/// The text after the host of an Instagram link.
pub fn instagram_path(s: &Vec<char>) -> (r: Option<Vec<char>>)
    ensures
        match r {
            Some(p) => instagram_path_of(s@) == Some(p@),
            None => instagram_path_of(s@) is None,
        },
{
    proof {
        lemma_find_from(text::lower(s@), marker_long(), 0);
        lemma_find_from(text::lower(s@), marker_short(), 0);
    }
    let long = vec!['i', 'n', 's', 't', 'a', 'g', 'r', 'a', 'm', '.', 'c', 'o', 'm', '/'];
    match text::find_ignoring_case(s, &long) {
        Some(i) => {
            let p = copy_range(s, i + long.len(), s.len());
            return Some(p);
        },
        None => {},
    }
    let short = vec!['i', 'n', 's', 't', 'a', 'g', 'r', '.', 'a', 'm', '/'];
    assert(short@ == marker_short());
    match text::find_ignoring_case(s, &short) {
        Some(i) => {
            let n = short.len();
            let len = s.len();
            Some(copy_range(s, i + n, len))
        },
        None => None,
    }
}

/// The shortcode of a `/share/` link, given the pieces of its path.
pub fn share_shortcode(parts: &Vec<Vec<char>>) -> (r: Option<String>)
    ensures
        opt_string_view(r) == share_code(text::seq_views(parts@)),
{
    let code: &Vec<char> = if parts.len() >= 3 && is_post_kind(&parts[1]) {
        &parts[2]
    } else if parts.len() >= 2 {
        &parts[1]
    } else {
        return None;
    };
    if is_shortcode(code) {
        Some(string_of(code))
    } else {
        None
    }
}

/// The target of an `/explore/` link, given the pieces of its path.
pub fn explore_target(parts: &Vec<Vec<char>>) -> (r: Option<DownloadTarget>)
    ensures
        opt_target_view(r) == explore_of(text::seq_views(parts@)),
{
    if parts.len() < 2 {
        return None;
    }
    if is_word(&parts[1], vec!['t', 'a', 'g', 's']) {
        if parts.len() < 3 {
            return None;
        }
        let tag = decode_chars(&parts[2]);
        if is_hashtag_name(&tag) {
            Some(DownloadTarget::Hashtag(tag))
        } else {
            None
        }
    } else if is_word(&parts[1], vec!['l', 'o', 'c', 'a', 't', 'i', 'o', 'n', 's']) {
        if parts.len() >= 3 && is_location_id(&parts[2]) {
            Some(DownloadTarget::Location(string_of(&parts[2])))
        } else {
            None
        }
    } else {
        None
    }
}

/// The target of a link whose path starts with a user name, given the pieces of its path.
pub fn username_prefixed_target(parts: &Vec<Vec<char>>) -> (r: Option<DownloadTarget>)
    requires
        parts.len() >= 1,
    ensures
        opt_target_view(r) == username_target_of(text::seq_views(parts@)),
{
    if !is_username(&parts[0]) {
        return None;
    }
    if parts.len() >= 3 && is_post_kind(&parts[1]) && is_shortcode(&parts[2]) {
        return Some(DownloadTarget::Post(string_of(&parts[2])));
    }
    Some(DownloadTarget::Profile(string_of(&parts[0])))
}

/// Read an Instagram link.
pub fn target_from_instagram_url(s: &Vec<char>) -> (r: Option<DownloadTarget>)
    ensures
        opt_target_view(r) == url_target(s@),
{
    let path = match instagram_path(s) {
        Some(p) => p,
        None => return None,
    };
    let q = lead_len(&path, 0, CharClass::QueryOrFragment, false);
    let path_only = copy_range(&path, 0, q);
    proof {
        assert(path@.subrange(0, path.len() as int) == path@);
        assert(path_only@ == path@.take(q as int));
    }
    let parts = split_segments(&path_only, CharClass::Slash);
    let ghost ps = text::seq_views(parts@);
    assert(ps == url_parts(path@));
    if parts.len() == 0 {
        return None;
    }
    let first = &parts[0];
    if is_post_kind(first) {
        if parts.len() >= 2 && is_shortcode(&parts[1]) {
            Some(DownloadTarget::Post(string_of(&parts[1])))
        } else {
            None
        }
    } else if is_word(first, vec!['s', 'h', 'a', 'r', 'e']) {
        match share_shortcode(&parts) {
            Some(code) => Some(DownloadTarget::Post(code)),
            None => None,
        }
    } else if is_word(first, vec!['e', 'x', 'p', 'l', 'o', 'r', 'e']) {
        explore_target(&parts)
    } else if is_word(first, vec!['t', 'a', 'g', 's']) {
        if parts.len() < 2 {
            return None;
        }
        let tag = decode_chars(&parts[1]);
        if is_hashtag_name(&tag) {
            Some(DownloadTarget::Hashtag(tag))
        } else {
            None
        }
    } else if is_word(first, vec!['s', 't', 'o', 'r', 'i', 'e', 's']) {
        None
    } else {
        username_prefixed_target(&parts)
    }
}

// ---------------------------------------------------------------------------
// Targets and links
// ---------------------------------------------------------------------------

/// The input with surrounding white space removed, then surrounding `<`, `>`, `"` and `'`.
pub open spec fn cleaned(input: Seq<char>) -> Seq<char> {
    text::trim_class(text::trim(input), CharClass::Quote)
}

/// What [`parse_target`] gives: on the cleaned input, native syntax first,
/// then an Instagram link, then a bare shortcode; empty input is `Empty`,
/// anything else `Invalid` with the cleaned text.
pub open spec fn target_of(input: Seq<char>) -> Result<TargetView, ParseErrorView> {
    let s = cleaned(input);
    if s.len() == 0 {
        Err(ParseErrorView::Empty)
    } else {
        match native_target(s) {
            Some(t) => Ok(t),
            None => match url_target(s) {
                Some(t) => Ok(t),
                None => if shortcode_ok(s) {
                    Ok(TargetView::Post(s))
                } else {
                    Err(ParseErrorView::Invalid(s))
                },
            },
        }
    }
}

/// What [`parse_shortcode`] gives: the shortcode when the input is a post,
/// the error of [`parse_target`], or `Invalid` with the trimmed input for other targets.
pub open spec fn shortcode_of(input: Seq<char>) -> Result<Seq<char>, ParseErrorView> {
    match target_of(input) {
        Err(e) => Err(e),
        Ok(TargetView::Post(code)) => Ok(code),
        Ok(_) => Err(ParseErrorView::Invalid(text::trim(input))),
    }
}

/// A line of a batch without surrounding white space, then without surrounding `,` and `;`.
pub open spec fn line_token(l: Seq<char>) -> Seq<char> {
    text::trim_class(text::trim(l), CharClass::ListSep)
}

/// The targets that the given lines yield, in order of first appearance and
/// without repeats, and whether any line held a token.
pub open spec fn gather(ls: Seq<Seq<char>>) -> (Seq<TargetView>, bool)
    decreases ls.len(),
{
    if ls.len() == 0 {
        (Seq::empty(), false)
    } else {
        let prev = gather(ls.drop_last());
        let tok = line_token(ls.last());
        if tok.len() == 0 {
            prev
        } else {
            match target_of(tok) {
                Ok(t) => if prev.0.contains(t) {
                    (prev.0, true)
                } else {
                    (prev.0.push(t), true)
                },
                Err(_) => (prev.0, true),
            }
        }
    }
}

/// What [`parse_links`] gives: the distinct targets of the lines that parse;
/// `Empty` when no line holds a token, `Invalid` with the trimmed input when
/// tokens were given but none parses.
pub open spec fn links_of(input: Seq<char>) -> Result<Seq<TargetView>, ParseErrorView> {
    let (out, saw) = gather(text::lines(input));
    if out.len() == 0 {
        if saw {
            Err(ParseErrorView::Invalid(text::trim(input)))
        } else {
            Err(ParseErrorView::Empty)
        }
    } else {
        Ok(out)
    }
}

/// Parse a target from its characters.
pub fn parse_target_chars(input: &Vec<char>) -> (r: Result<DownloadTarget, ParseError>)
    ensures
        target_result_view(r) == target_of(input@),
{
    let t = trim_chars(input, CharClass::Whitespace);
    let s = trim_chars(&t, CharClass::Quote);
    if s.len() == 0 {
        return Err(ParseError::Empty);
    }
    match target_from_native(&s) {
        Some(target) => return Ok(target),
        None => {},
    }
    match target_from_instagram_url(&s) {
        Some(target) => return Ok(target),
        None => {},
    }
    if is_shortcode(&s) {
        return Ok(DownloadTarget::Post(string_of(&s)));
    }
    Err(ParseError::Invalid(string_of(&s)))
}

/// Parse one Instagram URL, native instaloader target, or bare shortcode.
pub fn parse_target(input: &str) -> (r: Result<DownloadTarget, ParseError>)
    ensures
        target_result_view(r) == target_of(input@),
{
    let v = chars_of(input);
    parse_target_chars(&v)
}

/// Parse one Instagram short link or a bare shortcode into the post shortcode.
pub fn parse_shortcode(input: &str) -> (r: Result<String, ParseError>)
    ensures
        string_result_view(r) == shortcode_of(input@),
{
    let v = chars_of(input);
    match parse_target_chars(&v) {
        Err(e) => Err(e),
        Ok(DownloadTarget::Post(code)) => Ok(code),
        Ok(_) => Err(ParseError::Invalid(string_of(&trim_chars(&v, CharClass::Whitespace)))),
    }
}

/// Whether `out` holds a target equal to `t`.
fn contains_target(out: &Vec<DownloadTarget>, t: &DownloadTarget) -> (b: bool)
    ensures
        b == targets_view(out@).contains(t@),
{
    let mut j: usize = 0;
    while j < out.len()
        invariant
            j <= out.len(),
            forall|u: int| 0 <= u < j ==> targets_view(out@)[u] != t@,
        decreases out.len() - j,
    {
        if same_target(&out[j], t) {
            assert(targets_view(out@)[j as int] == t@);
            return true;
        }
        j = j + 1;
    }
    false
}

/// Parse one or many links. Each non-empty line is one link.
pub fn parse_links(input: &str) -> (r: Result<Vec<DownloadTarget>, ParseError>)
    ensures
        links_result_view(r) == links_of(input@),
{
    let chars = chars_of(input);
    let ls = split_lines(&chars);
    let ghost all = text::seq_views(ls@);
    let mut out: Vec<DownloadTarget> = Vec::new();
    let mut saw = false;
    let mut i: usize = 0;
    proof {
        assert(all.take(0) == Seq::<Seq<char>>::empty());
        assert(targets_view(out@) =~= Seq::<TargetView>::empty());
    }
    while i < ls.len()
        invariant
            i <= ls.len(),
            all == text::seq_views(ls@),
            all == text::lines(chars@),
            (targets_view(out@), saw) == gather(all.take(i as int)),
        decreases ls.len() - i,
    {
        let ghost prev_out = targets_view(out@);
        proof {
            assert(all.take(i + 1).drop_last() == all.take(i as int));
            assert(all.take(i + 1).last() == ls@[i as int]@);
        }
        let t1 = trim_chars(&ls[i], CharClass::Whitespace);
        let raw = trim_chars(&t1, CharClass::ListSep);
        if raw.len() == 0 {
            i = i + 1;
            continue ;
        }
        saw = true;
        match parse_target_chars(&raw) {
            Ok(target) => {
                if !contains_target(&out, &target) {
                    out.push(target);
                    proof {
                        assert(targets_view(out@) =~= prev_out.push(target@));
                    }
                }
            },
            Err(_) => {},
        }
        i = i + 1;
    }
    proof {
        assert(all.take(ls.len() as int) == all);
    }
    if out.len() == 0 {
        if saw {
            Err(ParseError::Invalid(string_of(&trim_chars(&chars, CharClass::Whitespace))))
        } else {
            Err(ParseError::Empty)
        }
    } else {
        Ok(out)
    }
}

} // verus!
