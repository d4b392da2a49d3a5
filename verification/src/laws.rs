//! Properties that relate the library's functions to one another, proved
//! over the specifications that their contracts use.
use vstd::prelude::*;
use vstd::utf8::*;

use crate::parse;
use crate::parse::ParseErrorView;
use crate::parse::TargetView;
use crate::text;
use crate::text::CharClass;

verus! {

broadcast use {vstd::utf8::encode_utf8_valid_utf8, vstd::utf8::encode_utf8_decode_utf8};

// ---------------------------------------------------------------------------
// Labels, folders, engine arguments
// ---------------------------------------------------------------------------

/// The folder instaloader creates for a target carries the target's label.
pub proof fn folder_is_label(t: TargetView)
    ensures
        parse::folder(t) == parse::label(t),
{
}

/// The argument that names a post to instaloader is its label behind `-`;
/// for every other target it is the label itself.
pub proof fn engine_arg_is_label(t: TargetView)
    ensures
        t is Post ==> parse::engine_arg(t) == seq!['-'] + parse::label(t),
        !(t is Post) ==> parse::engine_arg(t) == parse::label(t),
{
}

// ---------------------------------------------------------------------------
// Well-formed targets
// ---------------------------------------------------------------------------

/// A target whose text is of the form its kind requires.
pub open spec fn well_formed(t: TargetView) -> bool {
    match t {
        TargetView::Post(code) => parse::shortcode_ok(code),
        TargetView::Profile(name) => parse::username_ok(name),
        TargetView::Hashtag(tag) => parse::hashtag_ok(tag),
        TargetView::Location(id) => parse::location_ok(id),
    }
}

/// Every target that parsing yields is well formed: a post carries a
/// shortcode, a profile a user name, a hashtag a hashtag name, a location
/// an id.
pub proof fn parsed_targets_are_well_formed(input: Seq<char>)
    ensures
        parse::target_of(input) matches Ok(t) ==> well_formed(t),
{
}

/// Every target that parsing yields has a non-empty label, so a download of
/// it is never refused as an empty target.
pub proof fn parsed_targets_have_labels(input: Seq<char>)
    ensures
        parse::target_of(input) matches Ok(t) ==> parse::label(t).len() > 0,
{
}

/// The arguments given to instaloader end with `--` followed by the target's
/// engine argument.
pub proof fn engine_arguments_end_with_target(t: TargetView, dest: Seq<char>)
    ensures
        crate::download::engine_args(t, dest).last() == parse::engine_arg(t),
        crate::download::engine_args(t, dest)[crate::download::engine_args(t, dest).len() - 2]
            == "--"@,
{
}

/// `parse_shortcode` gives a shortcode exactly when `parse_target` gives a
/// post with that shortcode.
pub proof fn shortcode_is_post_target(input: Seq<char>, code: Seq<char>)
    ensures
        parse::shortcode_of(input) == Ok::<Seq<char>, ParseErrorView>(code) <==> parse::target_of(
            input,
        ) == Ok::<TargetView, ParseErrorView>(TargetView::Post(code)),
{
}

// ---------------------------------------------------------------------------
// Trimming
// ---------------------------------------------------------------------------

proof fn lemma_trim_noop(s: Seq<char>, cls: CharClass)
    requires
        s.len() > 0,
        !text::in_class(cls, s[0]),
        !text::in_class(cls, s.last()),
    ensures
        text::trim_class(s, cls) == s,
{
    text::lemma_lead_exact(s, cls, true, 0);
    text::lemma_trail_exact(s, cls, true, 0);
    assert(s.subrange(0, s.len() as int) == s);
}

/// Trimming a class off a text surrounded by characters of that class gives
/// what trimming the text alone gives.
proof fn lemma_trim_surrounded(p: Seq<char>, s: Seq<char>, q: Seq<char>, cls: CharClass)
    requires
        forall|i: int| 0 <= i < p.len() ==> text::in_class(cls, #[trigger] p[i]),
        forall|i: int| 0 <= i < q.len() ==> text::in_class(cls, #[trigger] q[i]),
    ensures
        text::trim_class(p + s + q, cls) == text::trim_class(s, cls),
{
    let x = p + s + q;
    text::lemma_lead_bound(s, cls, true);
    text::lemma_trail_bound(s, cls, true);
    let a = text::lead(s, cls, true);
    if a == s.len() {
        assert forall|t: int| 0 <= t < x.len() implies text::in_class(cls, #[trigger] x[t]) == true by {
            if t < p.len() {
                assert(x[t] == p[t]);
            } else if t < p.len() + s.len() {
                assert(x[t] == s[t - p.len()]);
            } else {
                assert(x[t] == q[t - p.len() - s.len()]);
            }
        }
        text::lemma_lead_exact(x, cls, true, x.len() as int);
    } else {
        let b = text::trail(s, cls, true);
        assert(b < s.len()) by {
            if b == s.len() {
                assert(text::in_class(cls, s[a as int]));
            }
        }
        assert forall|t: int| 0 <= t < p.len() + a implies text::in_class(cls, #[trigger] x[t])
            == true by {
            if t < p.len() {
                assert(x[t] == p[t]);
            } else {
                assert(x[t] == s[t - p.len()]);
            }
        }
        assert(x[(p.len() + a) as int] == s[a as int]);
        text::lemma_lead_exact(x, cls, true, (p.len() + a) as int);
        assert forall|t: int| x.len() - (q.len() + b) <= t < x.len() implies text::in_class(
            cls,
            #[trigger] x[t],
        ) == true by {
            if t < p.len() + s.len() {
                assert(x[t] == s[t - p.len()]);
            } else {
                assert(x[t] == q[t - p.len() - s.len()]);
            }
        }
        assert(x[x.len() - 1 - (q.len() + b)] == s[s.len() - 1 - b]);
        text::lemma_trail_exact(x, cls, true, (q.len() + b) as int);
        assert(x.subrange((p.len() + a) as int, x.len() - (q.len() + b)) =~= s.subrange(
            a as int,
            s.len() - b,
        ));
    }
}

/// White space around an input does not change what it parses to, as a
/// target or as a shortcode.
pub proof fn surrounding_whitespace_is_ignored(p: Seq<char>, s: Seq<char>, q: Seq<char>)
    requires
        forall|i: int| 0 <= i < p.len() ==> text::is_whitespace_char(#[trigger] p[i]),
        forall|i: int| 0 <= i < q.len() ==> text::is_whitespace_char(#[trigger] q[i]),
    ensures
        parse::target_of(p + s + q) == parse::target_of(s),
        parse::shortcode_of(p + s + q) == parse::shortcode_of(s),
{
    lemma_trim_surrounded(p, s, q, CharClass::Whitespace);
}

// ---------------------------------------------------------------------------
// Percent decoding
// ---------------------------------------------------------------------------

proof fn lemma_high_bytes(x: u8)
    by (bit_vector)
    ensures
        (0x80u8 | x) != 37u8,
        (0xC0u8 | x) != 37u8,
        (0xE0u8 | x) != 37u8,
        (0xF0u8 | x) != 37u8,
{
}

proof fn lemma_scalar_not_percent(c: u32)
    requires
        c != 37,
    ensures
        forall|j: int|
            0 <= j < encode_scalar(c).len() ==> #[trigger] encode_scalar(c)[j] != parse::PERCENT,
{
    if has_width_1_encoding(c) {
        assert((c & 0x7F) as u8 != 37u8) by (bit_vector)
            requires
                c <= 0x7F,
                c != 37,
        ;
    } else {
        lemma_high_bytes(((c >> 6) & 0x1F) as u8);
        lemma_high_bytes(((c >> 12) & 0x0F) as u8);
        lemma_high_bytes(((c >> 18) & 0x7) as u8);
        lemma_high_bytes((c & 0x3F) as u8);
        lemma_high_bytes(((c >> 6) & 0x3F) as u8);
        lemma_high_bytes(((c >> 12) & 0x3F) as u8);
    }
}

proof fn lemma_encode_not_percent(s: Seq<char>)
    requires
        !s.contains('%'),
    ensures
        forall|j: int| 0 <= j < encode_utf8(s).len() ==> #[trigger] encode_utf8(s)[j] != parse::PERCENT,
    decreases s.len(),
{
    if s.len() > 0 {
        let rest = s.drop_first();
        assert(!rest.contains('%')) by {
            if rest.contains('%') {
                let k = choose|k: int| 0 <= k < rest.len() && rest[k] == '%';
                assert(s[k + 1] == '%');
            }
        }
        lemma_encode_not_percent(rest);
        assert(s[0] != '%');
        assert((s[0] as u32) != 37) by {
            vstd::utf8::char_u32_cast(s[0], s[0] as u32);
            vstd::utf8::char_u32_cast('%', 37u32);
        }
        lemma_scalar_not_percent(s[0] as u32);
        let head = encode_scalar(s[0] as u32);
        let e = encode_utf8(s);
        assert(e == head + encode_utf8(rest));
        assert forall|j: int| 0 <= j < e.len() implies #[trigger] e[j] != parse::PERCENT by {
            if j < head.len() {
                assert(e[j] == head[j]);
            } else {
                assert(e[j] == encode_utf8(rest)[j - head.len()]);
            }
        }
    }
}

proof fn lemma_decoded_bytes_plain(b: Seq<u8>)
    requires
        forall|j: int| 0 <= j < b.len() ==> #[trigger] b[j] != parse::PERCENT,
    ensures
        parse::percent_decoded_bytes(b) == b,
    decreases b.len(),
{
    if b.len() > 0 {
        assert(b[0] != parse::PERCENT);
        assert forall|j: int| 0 <= j < b.drop_first().len() implies #[trigger] b.drop_first()[j]
            != parse::PERCENT by {
            assert(b.drop_first()[j] == b[j + 1]);
        }
        lemma_decoded_bytes_plain(b.drop_first());
        assert(seq![b[0]] + b.drop_first() =~= b);
    }
}

/// Percent-decoding leaves a text without `%` unchanged.
pub proof fn percent_decoding_keeps_plain_text(s: Seq<char>)
    requires
        !s.contains('%'),
    ensures
        parse::percent_decoded(s) == s,
{
    lemma_encode_not_percent(s);
    lemma_decoded_bytes_plain(encode_utf8(s));
}

// ---------------------------------------------------------------------------
// Native syntax round trip
// ---------------------------------------------------------------------------

/// A well-formed post, location, or hashtag ending in an ASCII character,
/// written in native instaloader syntax (`-CODE`, `%ID`, `#TAG`), parses
/// back to itself.
pub proof fn native_syntax_round_trip(t: TargetView)
    requires
        well_formed(t),
        t is Post || t is Location || (t matches TargetView::Hashtag(tag) && (tag.last() as u32)
            < 128),
    ensures
        parse::target_of(parse::engine_arg(t)) == Ok::<TargetView, ParseErrorView>(t),
{
    let s = parse::engine_arg(t);
    match t {
        TargetView::Post(code) => {
            assert(s.drop_first() == code);
            assert(s.last() == code.last());
            assert(parse::shortcode_char(code[code.len() - 1]));
        },
        TargetView::Location(id) => {
            assert(s.drop_first() == id);
            assert(s.last() == id.last());
            assert(text::is_ascii_digit(id[id.len() - 1]));
        },
        TargetView::Hashtag(tag) => {
            assert(s.drop_first() == tag);
            assert(s.last() == tag.last());
            assert(parse::hashtag_char(tag[tag.len() - 1]));
            assert(!tag.contains('%')) by {
                if tag.contains('%') {
                    let k = choose|k: int| 0 <= k < tag.len() && tag[k] == '%';
                    assert(parse::hashtag_char(tag[k]));
                }
            }
            percent_decoding_keeps_plain_text(tag);
        },
        TargetView::Profile(_) => {},
    }
    lemma_trim_noop(s, CharClass::Whitespace);
    lemma_trim_noop(s, CharClass::Quote);
}

proof fn lemma_find_absent(hay: Seq<char>, needle: Seq<char>, i: int, k: int)
    requires
        0 <= k < needle.len(),
        forall|j: int| 0 <= j < hay.len() ==> #[trigger] hay[j] != needle[k],
    ensures
        text::find_from(hay, needle, i) is None,
    decreases hay.len() + 1 - i,
{
    if !(i < 0 || i + needle.len() > hay.len()) {
        if hay.subrange(i, i + needle.len()) == needle {
            assert(hay.subrange(i, i + needle.len())[k] == hay[i + k]);
        }
        lemma_find_absent(hay, needle, i + 1, k);
    }
}

/// The label of a post (its bare shortcode) parses back to the post, unless
/// the shortcode starts with `-`, which reads as native syntax; the labels
/// of locations, and of hashtags ending in an ASCII character, parse back
/// to them too.
pub proof fn label_round_trip(t: TargetView)
    requires
        well_formed(t),
        (t matches TargetView::Post(code) && code[0] != '-') || t is Location || (
        t matches TargetView::Hashtag(tag) && (tag.last() as u32) < 128),
    ensures
        parse::target_of(parse::label(t)) == Ok::<TargetView, ParseErrorView>(t),
{
    match t {
        TargetView::Post(code) => {
            assert(parse::shortcode_char(code[0]));
            assert(parse::shortcode_char(code[code.len() - 1]));
            lemma_trim_noop(code, CharClass::Whitespace);
            lemma_trim_noop(code, CharClass::Quote);
            let l = text::lower(code);
            assert forall|j: int| 0 <= j < l.len() implies #[trigger] l[j] != '/' by {
                assert(parse::shortcode_char(code[j]));
            }
            assert(parse::marker_long()[13] == '/');
            assert(parse::marker_short()[10] == '/');
            lemma_find_absent(l, parse::marker_long(), 0, 13);
            lemma_find_absent(l, parse::marker_short(), 0, 10);
        },
        _ => {
            native_syntax_round_trip(t);
        },
    }
}

// ---------------------------------------------------------------------------
// Downloads
// ---------------------------------------------------------------------------

/// A download that succeeded has run instaloader on its target: the recorded
/// command line ends with `--` and the target's engine argument, after the
/// directory pattern for the destination.
pub proof fn successful_downloads_ran_the_engine(run: crate::flow::DownloadRun)
    requires
        crate::flow::run_inv(run),
        run.result.success,
    ensures
        ({
            let cmd = crate::order::strings_view(run.result.command@);
            &&& cmd.last() == parse::engine_arg(run.target@)
            &&& cmd[cmd.len() - 2] == "--"@
            &&& cmd.contains(
                crate::download::dirname_pattern(run.target@, run.result.destination@),
            )
        }),
{
    let cmd = crate::order::strings_view(run.result.command@);
    let args = crate::download::engine_args(run.target@, run.result.destination@);
    assert(cmd[cmd.len() - 15 + 1] == args[1]);
}

/// A finished download reports the target's label and the engine's name,
/// and it succeeded exactly when it carries no error.
pub proof fn finished_downloads_report_target_and_outcome(run: crate::flow::DownloadRun)
    requires
        crate::flow::run_inv(run),
        run.phase is Done,
    ensures
        run.result.shortcode@ == parse::label(run.target@),
        run.result.engine@ == crate::download::engine_name(),
        run.result.success <==> run.result.error is None,
{
}

// ---------------------------------------------------------------------------
// Batches of links
// ---------------------------------------------------------------------------

/// Line `i` holds a token.
pub open spec fn has_token(ls: Seq<Seq<char>>, i: int) -> bool {
    parse::line_token(ls[i]).len() > 0
}

/// Line `i` holds a token that parses to `t`.
pub open spec fn yields(ls: Seq<Seq<char>>, i: int, t: TargetView) -> bool {
    &&& has_token(ls, i)
    &&& parse::target_of(parse::line_token(ls[i])) == Ok::<TargetView, ParseErrorView>(t)
}

proof fn lemma_gather(ls: Seq<Seq<char>>)
    ensures
        parse::gather(ls).0.no_duplicates(),
        forall|t: TargetView|
            #![trigger parse::gather(ls).0.contains(t)]
            parse::gather(ls).0.contains(t) ==> exists|i: int| 0 <= i < ls.len() && yields(ls, i, t),
        forall|i: int, t: TargetView|
            0 <= i < ls.len() && #[trigger] yields(ls, i, t) ==> parse::gather(ls).0.contains(t),
        parse::gather(ls).1 <==> exists|i: int| 0 <= i < ls.len() && #[trigger] has_token(ls, i),
    decreases ls.len(),
{
    if ls.len() > 0 {
        let init = ls.drop_last();
        lemma_gather(init);
        let prev = parse::gather(init);
        let n = ls.len() - 1;
        assert forall|i: int| 0 <= i < init.len() implies #[trigger] has_token(ls, i) == has_token(
            init,
            i,
        ) by {
            assert(ls[i] == init[i]);
        }
        assert forall|i: int, t: TargetView| 0 <= i < init.len() implies #[trigger] yields(ls, i, t)
            == yields(init, i, t) by {
            assert(ls[i] == init[i]);
        }
        assert(ls.last() == ls[n]);
        let cur = parse::gather(ls);
        assert forall|t: TargetView| cur.0.contains(t) implies exists|i: int|
            0 <= i < ls.len() && yields(ls, i, t) by {
            if prev.0.contains(t) {
                let i = choose|i: int| 0 <= i < init.len() && yields(init, i, t);
                assert(yields(ls, i, t));
            } else {
                let k = choose|k: int| 0 <= k < cur.0.len() && cur.0[k] == t;
                assert(k == prev.0.len());
                assert(yields(ls, n, t));
            }
        }
        assert forall|i: int, t: TargetView| 0 <= i < ls.len() && #[trigger] yields(
            ls,
            i,
            t,
        ) implies cur.0.contains(t) by {
            if i < n {
                assert(yields(init, i, t));
                assert(prev.0.contains(t));
                let k = choose|k: int| 0 <= k < prev.0.len() && prev.0[k] == t;
                assert(cur.0[k] == t);
            } else {
                if !prev.0.contains(t) {
                    assert(cur.0[prev.0.len() as int] == t);
                }
            }
        }
        if cur.1 {
            if !prev.1 {
                assert(has_token(ls, n));
            } else {
                let i = choose|i: int| 0 <= i < init.len() && has_token(init, i);
                assert(has_token(ls, i));
            }
        }
        if exists|i: int| 0 <= i < ls.len() && #[trigger] has_token(ls, i) {
            let i = choose|i: int| 0 <= i < ls.len() && #[trigger] has_token(ls, i);
            if i < n {
                assert(has_token(init, i));
            }
        }
    }
}

/// A batch of links gives each target at most once; every target it gives
/// comes from a line of the input, and every line whose token parses
/// contributes its target. The batch is refused as empty exactly when no
/// line holds a token, and as invalid exactly when tokens were given but
/// none of them parses.
pub proof fn batch_targets_are_distinct_sound_and_complete(input: Seq<char>)
    ensures
        parse::links_of(input) matches Ok(out) ==> out.no_duplicates(),
        parse::links_of(input) matches Ok(out) ==> forall|t: TargetView|
            #![trigger out.contains(t)]
            out.contains(t) ==> exists|i: int|
                0 <= i < text::lines(input).len() && yields(text::lines(input), i, t),
        forall|i: int, t: TargetView|
            0 <= i < text::lines(input).len() && #[trigger] yields(text::lines(input), i, t)
                ==> (parse::links_of(input) matches Ok(out) && out.contains(t)),
        parse::links_of(input) == Err::<Seq<TargetView>, ParseErrorView>(ParseErrorView::Empty)
            <==> !exists|i: int|
            0 <= i < text::lines(input).len() && #[trigger] has_token(text::lines(input), i),
        (parse::links_of(input) matches Err(ParseErrorView::Invalid(_))) <==> (exists|i: int|
            0 <= i < text::lines(input).len() && #[trigger] has_token(text::lines(input), i))
            && !exists|i: int, t: TargetView|
            0 <= i < text::lines(input).len() && #[trigger] yields(text::lines(input), i, t),
{
    let ls = text::lines(input);
    lemma_gather(ls);
    let g = parse::gather(ls);
    if exists|i: int, t: TargetView| 0 <= i < ls.len() && #[trigger] yields(ls, i, t) {
        let (i, t) = choose|i: int, t: TargetView| 0 <= i < ls.len() && #[trigger] yields(ls, i, t);
        assert(g.0.contains(t));
        assert(g.0.len() > 0);
    } else {
        if g.0.len() > 0 {
            assert(g.0.contains(g.0[0]));
        }
    }
}

// ---------------------------------------------------------------------------
// Directory patterns
// ---------------------------------------------------------------------------

/// instaloader is told to write a post into `DEST/{shortcode}` and every
/// other target (a profile, a hashtag, a location) into `DEST/{target}`, the
/// folder that instaloader names after the target itself.
pub proof fn directory_pattern_by_kind(t: TargetView, dest: Seq<char>)
    ensures
        crate::download::engine_args(t, dest)[0] == "--dirname-pattern"@,
        t is Post ==> crate::download::engine_args(t, dest)[1] == dest + "/{shortcode}"@,
        t is Profile ==> crate::download::engine_args(t, dest)[1] == dest + "/{target}"@,
        t is Hashtag ==> crate::download::engine_args(t, dest)[1] == dest + "/{target}"@,
        t is Location ==> crate::download::engine_args(t, dest)[1] == dest + "/{target}"@,
{
}

// ---------------------------------------------------------------------------
// Hexadecimal escapes
// ---------------------------------------------------------------------------

/// The lower-case hexadecimal digit (`0-9`, `a-f`) for a value below 16.
pub open spec fn lower_hex(n: u8) -> u8 {
    if n < 10 {
        (48 + n) as u8
    } else {
        (87 + n) as u8
    }
}

/// The upper-case hexadecimal digit (`0-9`, `A-F`) for a value below 16.
pub open spec fn upper_hex(n: u8) -> u8 {
    if n < 10 {
        (48 + n) as u8
    } else {
        (55 + n) as u8
    }
}

/// The ASCII upper-case form of a byte; every other byte is unchanged.
pub open spec fn ascii_upper(x: u8) -> u8 {
    if 97 <= x && x <= 122 {
        (x - 32) as u8
    } else {
        x
    }
}

/// Every byte written as `%` and two hexadecimal digits, lower-case or
/// upper-case, decodes to that byte, and decoding goes on after the escape.
pub proof fn hex_escapes_decode_in_either_case(b: u8, rest: Seq<u8>)
    ensures
        parse::percent_decoded_bytes(seq![37u8, lower_hex(b / 16), lower_hex(b % 16)] + rest)
            == seq![b] + parse::percent_decoded_bytes(rest),
        parse::percent_decoded_bytes(seq![37u8, upper_hex(b / 16), upper_hex(b % 16)] + rest)
            == seq![b] + parse::percent_decoded_bytes(rest),
{
    let hi = b / 16;
    let lo = b % 16;
    assert(hi < 16 && lo < 16 && hi * 16 + lo == b);
    let x = seq![37u8, lower_hex(hi), lower_hex(lo)] + rest;
    assert(x[0] == 37u8 && x[1] == lower_hex(hi) && x[2] == lower_hex(lo));
    assert(x.skip(3) =~= rest);
    let y = seq![37u8, upper_hex(hi), upper_hex(lo)] + rest;
    assert(y[0] == 37u8 && y[1] == upper_hex(hi) && y[2] == upper_hex(lo));
    assert(y.skip(3) =~= rest);
}

/// Reading two bytes as a hexadecimal byte does not depend on the case of
/// its digits: `%xy` and `%XY` denote the same byte, or neither denotes one.
pub proof fn hex_digits_read_the_same_in_either_case(hi: u8, lo: u8)
    ensures
        parse::hex_byte(hi, lo) == parse::hex_byte(ascii_upper(hi), ascii_upper(lo)),
{
}

// ---------------------------------------------------------------------------
// Media files
// ---------------------------------------------------------------------------

/// The extensions of image and video files, in lower case.
pub open spec fn media_word(e: Seq<char>) -> bool {
    ||| e == seq!['j', 'p', 'g']
    ||| e == seq!['j', 'p', 'e', 'g']
    ||| e == seq!['p', 'n', 'g']
    ||| e == seq!['w', 'e', 'b', 'p']
    ||| e == seq!['b', 'm', 'p']
    ||| e == seq!['h', 'e', 'i', 'c']
    ||| e == seq!['m', 'p', '4']
    ||| e == seq!['m', '4', 'v']
    ||| e == seq!['m', 'o', 'v']
    ||| e == seq!['w', 'e', 'b', 'm']
    ||| e == seq!['m', 'k', 'v']
}

/// A file name `BASE.EXT` is a media file exactly when its extension is, in
/// any ASCII case, one of jpg, jpeg, png, webp, bmp, heic, mp4, m4v, mov,
/// webm and mkv.
pub proof fn media_files_by_extension(base: Seq<char>, ext: Seq<char>)
    requires
        base.len() > 0,
        !ext.contains('.'),
    ensures
        crate::download::media_name(base + seq!['.'] + ext) <==> media_word(text::lower(ext)),
{
    let name = base + seq!['.'] + ext;
    let n = name.len();
    let k = ext.len();
    assert forall|t: int| n - k <= t < n implies text::in_class(CharClass::Dot, #[trigger] name[t])
        == false by {
        assert(name[t] == ext[t - base.len() - 1]);
        if ext[t - base.len() - 1] == '.' {
            assert(ext.contains('.'));
        }
    }
    assert(name[n - 1 - k] == '.');
    text::lemma_trail_exact(name, CharClass::Dot, false, k as int);
    let l = text::lower(ext);
    let m = crate::download::media_extensions();
    assert(m[0] == seq!['j', 'p', 'g']);
    assert(m[1] == seq!['j', 'p', 'e', 'g']);
    assert(m[2] == seq!['p', 'n', 'g']);
    assert(m[3] == seq!['w', 'e', 'b', 'p']);
    assert(m[4] == seq!['b', 'm', 'p']);
    assert(m[5] == seq!['h', 'e', 'i', 'c']);
    assert(m[6] == seq!['m', 'p', '4']);
    assert(m[7] == seq!['m', '4', 'v']);
    assert(m[8] == seq!['m', 'o', 'v']);
    assert(m[9] == seq!['w', 'e', 'b', 'm']);
    assert(m[10] == seq!['m', 'k', 'v']);
    assert(m.len() == 11);
    if name == seq!['.', '.'] {
        assert(k == 0);
        assert(l.len() == 0);
    } else {
        assert(name.skip(n - k) =~= ext);
        if m.contains(l) {
            let i = choose|i: int| 0 <= i < m.len() && m[i] == l;
            assert(media_word(l));
        }
        if media_word(l) {
            if l == m[0] {
                assert(m.contains(l));
            } else if l == m[1] {
                assert(m.contains(l));
            } else if l == m[2] {
                assert(m.contains(l));
            } else if l == m[3] {
                assert(m.contains(l));
            } else if l == m[4] {
                assert(m.contains(l));
            } else if l == m[5] {
                assert(m.contains(l));
            } else if l == m[6] {
                assert(m.contains(l));
            } else if l == m[7] {
                assert(m.contains(l));
            } else if l == m[8] {
                assert(m.contains(l));
            } else if l == m[9] {
                assert(m.contains(l));
            } else {
                assert(m.contains(l));
            }
        }
    }
}


// ---------------------------------------------------------------------------
// Links to profiles and posts
// ---------------------------------------------------------------------------

/// The host of an Instagram link, `instagram.com/`.
pub open spec fn instagram_host() -> Seq<char> {
    seq!['i', 'n', 's', 't', 'a', 'g', 'r', 'a', 'm', '.', 'c', 'o', 'm', '/']
}

/// ASCII letters.
pub open spec fn letter(c: char) -> bool {
    ('a' <= c && c <= 'z') || ('A' <= c && c <= 'Z')
}

/// ASCII letters and digits.
pub open spec fn letter_or_digit(c: char) -> bool {
    letter(c) || ('0' <= c && c <= '9')
}

/// A user name as Instagram writes it: 1 to 30 ASCII letters, ASCII digits,
/// `_` and `.`, neither starting nor ending with `.`.
pub open spec fn plain_user_name(s: Seq<char>) -> bool {
    &&& 1 <= s.len() <= 30
    &&& s[0] != '.'
    &&& s.last() != '.'
    &&& forall|j: int|
        0 <= j < s.len() ==> letter_or_digit(#[trigger] s[j]) || s[j] == '_' || s[j] == '.'
}

/// A shortcode as Instagram writes it: 1 to 64 ASCII letters, ASCII digits,
/// `_` and `-`, at least one of them a letter or a digit.
pub open spec fn plain_shortcode(s: Seq<char>) -> bool {
    &&& 1 <= s.len() <= 64
    &&& forall|j: int|
        0 <= j < s.len() ==> letter_or_digit(#[trigger] s[j]) || s[j] == '_' || s[j] == '-'
    &&& exists|j: int| 0 <= j < s.len() && letter_or_digit(#[trigger] s[j])
}

/// The path words that name a single post: `p`, `reel`, `reels` and `tv`.
pub open spec fn post_word(w: Seq<char>) -> bool {
    ||| w == seq!['p']
    ||| w == seq!['r', 'e', 'e', 'l']
    ||| w == seq!['r', 'e', 'e', 'l', 's']
    ||| w == seq!['t', 'v']
}

/// The first path words with a meaning of their own, in any ASCII case: the
/// post words, `share`, `explore`, `tags` and `stories`.
pub open spec fn reserved_word(w: Seq<char>) -> bool {
    let l = text::lower(w);
    ||| post_word(l)
    ||| l == seq!['s', 'h', 'a', 'r', 'e']
    ||| l == seq!['e', 'x', 'p', 'l', 'o', 'r', 'e']
    ||| l == seq!['t', 'a', 'g', 's']
    ||| l == seq!['s', 't', 'o', 'r', 'i', 'e', 's']
}

/// What may stand before the host of a link, such as `https://` or
/// `http://www.`: ASCII letters other than `i` and `I`, `:`, `/` and `.`.
pub open spec fn host_prefix(pre: Seq<char>) -> bool {
    forall|j: int|
        0 <= j < pre.len() ==> (letter(#[trigger] pre[j]) && pre[j] != 'i' && pre[j] != 'I')
            || pre[j] == ':' || pre[j] == '/' || pre[j] == '.'
}

/// Characters of the path of a plain link: ASCII letters, ASCII digits,
/// `_`, `.`, `-` and `/`.
pub open spec fn path_char(c: char) -> bool {
    letter_or_digit(c) || c == '_' || c == '.' || c == '-' || c == '/'
}

proof fn lemma_plain_char(c: char)
    requires
        path_char(c) || c == ':',
    ensures
        !text::in_class(CharClass::Whitespace, c),
        !text::in_class(CharClass::Quote, c),
        !text::in_class(CharClass::QueryOrFragment, c),
        c != '#' && c != '%',
{
}

proof fn lemma_find_first(hay: Seq<char>, needle: Seq<char>, i: int, k: int)
    requires
        0 <= i <= k,
        0 < needle.len(),
        k + needle.len() <= hay.len(),
        hay.subrange(k, k + needle.len()) == needle,
        forall|j: int| i <= j < k ==> #[trigger] hay[j] != needle[0],
    ensures
        text::find_from(hay, needle, i) == Some(k),
    decreases k - i,
{
    if i < k {
        assert(hay.subrange(i, i + needle.len())[0] == hay[i]);
        lemma_find_first(hay, needle, i + 1, k);
    }
}

/// A link made of a prefix, the host and a plain path is its own cleaned
/// form and is no native syntax.
#[verifier::spinoff_prover]
proof fn lemma_plain_link_is_clean(pre: Seq<char>, path: Seq<char>)
    requires
        host_prefix(pre),
        plain_path(path),
    ensures
        parse::cleaned(pre + instagram_host() + path) == pre + instagram_host() + path,
        parse::native_target(pre + instagram_host() + path) is None,
{
    let h = instagram_host();
    let s = pre + h + path;
    assert(s.len() > 0);
    if pre.len() > 0 {
        assert(s[0] == pre[0]);
        lemma_plain_char(pre[0]);
    } else {
        assert(s[0] == h[0]);
    }
    if path.len() > 0 {
        assert(s.last() == path.last());
        lemma_plain_char(path.last());
    } else {
        assert(s.last() == h[13]);
    }
    lemma_trim_noop(s, CharClass::Whitespace);
    lemma_trim_noop(s, CharClass::Quote);
}

/// The path of a link made of a prefix, the host and a plain path is that path.
#[verifier::spinoff_prover]
proof fn lemma_plain_link_path(pre: Seq<char>, path: Seq<char>)
    requires
        host_prefix(pre),
    ensures
        parse::instagram_path_of(pre + instagram_host() + path) == Some(path),
{
    let h = instagram_host();
    let s = pre + h + path;
    let k = pre.len() as int;
    let hay = text::lower(s);
    let m = parse::marker_long();
    assert forall|j: int| 0 <= j < 14 implies #[trigger] hay.subrange(k, k + 14)[j] == m[j] by {
        assert(s[k + j] == h[j]);
        assert(hay[k + j] == text::lower_char(s[k + j]));
    }
    assert(hay.subrange(k, k + 14) =~= m);
    assert forall|j: int| 0 <= j < k implies #[trigger] hay[j] != m[0] by {
        assert(s[j] == pre[j]);
        assert(hay[j] == text::lower_char(pre[j]));
    }
    lemma_find_first(hay, m, 0, k);
    assert(s.skip(k + 14) =~= path);
}

/// A link made of a prefix, the host and a plain path is its own cleaned
/// form, is no native syntax, and has that path, split at `/`.
proof fn lemma_plain_link(pre: Seq<char>, path: Seq<char>)
    requires
        host_prefix(pre),
        plain_path(path),
    ensures
        parse::cleaned(pre + instagram_host() + path) == pre + instagram_host() + path,
        parse::native_target(pre + instagram_host() + path) is None,
        parse::instagram_path_of(pre + instagram_host() + path) == Some(path),
        parse::url_parts(path) == text::segments(path, CharClass::Slash),
{
    lemma_plain_link_is_clean(pre, path);
    lemma_plain_link_path(pre, path);
    assert forall|j: int| 0 <= j < path.len() implies text::in_class(
        CharClass::QueryOrFragment,
        #[trigger] path[j],
    ) == false by {
        lemma_plain_char(path[j]);
    }
    text::lemma_lead_exact(path, CharClass::QueryOrFragment, false, path.len() as int);
    assert(path.take(path.len() as int) =~= path);
}

/// Splitting a word and the rest after it at `/`.
proof fn lemma_segments_word(a: Seq<char>, rest: Seq<char>)
    requires
        a.len() > 0,
        forall|j: int| 0 <= j < a.len() ==> #[trigger] a[j] != '/',
    ensures
        text::segments(a + seq!['/'] + rest, CharClass::Slash) == seq![a] + text::segments(
            rest,
            CharClass::Slash,
        ),
{
    let s = a + seq!['/'] + rest;
    assert(s[0] == a[0]);
    assert forall|t: int| 0 <= t < a.len() implies text::in_class(CharClass::Slash, #[trigger] s[t])
        == false by {
        assert(s[t] == a[t]);
    }
    assert(s[a.len() as int] == '/');
    text::lemma_lead_exact(s, CharClass::Slash, false, a.len() as int);
    assert(s.take(a.len() as int) =~= a);
    let r = s.skip(a.len() as int);
    assert(r =~= seq!['/'] + rest);
    assert(r[0] == '/');
    assert(r.drop_first() =~= rest);
    assert(text::segments(r, CharClass::Slash) == text::segments(rest, CharClass::Slash));
    assert(text::segments(s, CharClass::Slash) == seq![a] + text::segments(r, CharClass::Slash));
}

/// Splitting a single word at `/`.
proof fn lemma_segments_single(a: Seq<char>)
    requires
        a.len() > 0,
        forall|j: int| 0 <= j < a.len() ==> #[trigger] a[j] != '/',
    ensures
        text::segments(a, CharClass::Slash) == seq![a],
{
    assert forall|t: int| 0 <= t < a.len() implies text::in_class(CharClass::Slash, #[trigger] a[t])
        == false by {
    }
    text::lemma_lead_exact(a, CharClass::Slash, false, a.len() as int);
    assert(a.take(a.len() as int) =~= a);
    assert(a.skip(a.len() as int) =~= Seq::<char>::empty());
    assert(text::segments(Seq::<char>::empty(), CharClass::Slash) =~= Seq::<Seq<char>>::empty());
    assert(seq![a] + Seq::<Seq<char>>::empty() =~= seq![a]);
}

/// A word of a plain path: non-empty, of path characters other than `/`.
spec fn path_word(w: Seq<char>) -> bool {
    &&& w.len() > 0
    &&& forall|j: int| 0 <= j < w.len() ==> path_char(#[trigger] w[j]) && w[j] != '/'
}

/// A plain path: path characters only.
pub open spec fn plain_path(p: Seq<char>) -> bool {
    forall|j: int| 0 <= j < p.len() ==> path_char(#[trigger] p[j])
}

/// Joining plain paths with `/` gives a plain path.
proof fn lemma_joined(a: Seq<char>, b: Seq<char>)
    requires
        plain_path(a),
        plain_path(b),
    ensures
        plain_path(a + seq!['/'] + b),
{
    let x = a + seq!['/'] + b;
    assert forall|j: int| 0 <= j < x.len() implies path_char(#[trigger] x[j]) by {
        if j < a.len() {
            assert(x[j] == a[j]);
        } else if j > a.len() {
            assert(x[j] == b[j - a.len() - 1]);
        }
    }
}

/// Two words joined by `/`, with or without a final `/`, split back into
/// the two words.
proof fn lemma_two_words(a: Seq<char>, b: Seq<char>)
    requires
        path_word(a),
        path_word(b),
    ensures
        plain_path(a + seq!['/'] + b),
        plain_path(a + seq!['/'] + b + seq!['/']),
        text::segments(a + seq!['/'] + b, CharClass::Slash) == seq![a, b],
        text::segments(a + seq!['/'] + b + seq!['/'], CharClass::Slash) == seq![a, b],
{
    let slash = seq!['/'];
    let empty = Seq::<char>::empty();
    lemma_joined(a, b);
    lemma_segments_word(a, b);
    lemma_segments_single(b);
    assert(seq![a] + seq![b] =~= seq![a, b]);
    let last = b + slash;
    assert(last =~= b + slash + empty);
    lemma_joined(b, empty);
    lemma_segments_word(b, empty);
    assert(text::segments(empty, CharClass::Slash) =~= Seq::<Seq<char>>::empty());
    assert(seq![b] + Seq::<Seq<char>>::empty() =~= seq![b]);
    lemma_joined(a, last);
    lemma_segments_word(a, last);
    assert(a + slash + b + slash =~= a + slash + last);
}

/// Three words joined by `/`, with or without a final `/`, split back into
/// the three words.
proof fn lemma_three_words(a: Seq<char>, b: Seq<char>, c: Seq<char>)
    requires
        path_word(a),
        path_word(b),
        path_word(c),
    ensures
        plain_path(a + seq!['/'] + b + seq!['/'] + c),
        plain_path(a + seq!['/'] + b + seq!['/'] + c + seq!['/']),
        text::segments(a + seq!['/'] + b + seq!['/'] + c, CharClass::Slash) == seq![a, b, c],
        text::segments(a + seq!['/'] + b + seq!['/'] + c + seq!['/'], CharClass::Slash) == seq![
            a,
            b,
            c,
        ],
{
    let slash = seq!['/'];
    lemma_two_words(b, c);
    let t1 = b + slash + c;
    let t2 = b + slash + c + slash;
    lemma_joined(a, t1);
    lemma_joined(a, t2);
    lemma_segments_word(a, t1);
    lemma_segments_word(a, t2);
    assert(a + slash + b + slash + c =~= a + slash + t1);
    assert(a + slash + b + slash + c + slash =~= a + slash + t2);
    assert(seq![a] + seq![b, c] =~= seq![a, b, c]);
}

/// Every name of 1 to 30 ASCII letters, ASCII digits, `_` and `.` that
/// neither starts nor ends with `.` is accepted as a user name.
pub proof fn plain_user_names_are_user_names(name: Seq<char>)
    requires
        plain_user_name(name),
    ensures
        parse::username_ok(name),
{
    assert(parse::username_body(name) == name);
    assert forall|j: int| 0 <= j < name.len() implies #[trigger] parse::username_char(name[j]) by {
    }
}

/// A word of lower-case ASCII letters is its own lower-case form.
proof fn lemma_lower_word(w: Seq<char>)
    requires
        forall|j: int| 0 <= j < w.len() ==> 'a' <= #[trigger] w[j] <= 'z',
    ensures
        text::lower(w) == w,
        forall|j: int| 0 <= j < w.len() ==> letter(#[trigger] w[j]),
{
    assert forall|j: int| 0 <= j < w.len() implies text::lower_char(#[trigger] w[j]) == w[j] by {}
    assert(text::lower(w) =~= w);
}

proof fn lemma_lower_post_word(w: Seq<char>)
    requires
        post_word(w),
    ensures
        text::lower(w) == w,
        forall|j: int| 0 <= j < w.len() ==> letter(#[trigger] w[j]),
{
    assert forall|j: int| 0 <= j < w.len() implies 'a' <= #[trigger] w[j] <= 'z' by {
        if w == seq!['p'] {
        } else if w == seq!['r', 'e', 'e', 'l'] {
        } else if w == seq!['r', 'e', 'e', 'l', 's'] {
        } else {
        }
    }
    lemma_lower_word(w);
}

/// A link to a profile, `instagram.com/NAME` with or without a final `/`
/// and behind any scheme or `www.`, parses to the profile of that name, for
/// every user name that is not a path word of its own.
#[verifier::spinoff_prover]
pub proof fn profile_links_parse_to_the_profile(pre: Seq<char>, name: Seq<char>)
    requires
        host_prefix(pre),
        plain_user_name(name),
        !reserved_word(name),
    ensures
        parse::target_of(pre + instagram_host() + name) == Ok::<TargetView, ParseErrorView>(
            TargetView::Profile(name),
        ),
        parse::target_of(pre + instagram_host() + (name + seq!['/'])) == Ok::<
            TargetView,
            ParseErrorView,
        >(TargetView::Profile(name)),
{
    plain_user_names_are_user_names(name);
    assert forall|j: int| 0 <= j < name.len() implies path_char(#[trigger] name[j]) && name[j]
        != '/' by {
    }
    lemma_plain_link(pre, name);
    lemma_segments_single(name);
    let p2 = name + seq!['/'];
    assert forall|j: int| 0 <= j < p2.len() implies path_char(#[trigger] p2[j]) by {
        if j < name.len() {
            assert(p2[j] == name[j]);
        }
    }
    lemma_plain_link(pre, p2);
    lemma_segments_word(name, Seq::<char>::empty());
    assert(name + seq!['/'] + Seq::<char>::empty() =~= p2);
    assert(text::segments(Seq::<char>::empty(), CharClass::Slash) =~= Seq::<Seq<char>>::empty());
    assert(seq![name] + Seq::<Seq<char>>::empty() =~= seq![name]);
}

proof fn lemma_words(name: Seq<char>, kind: Seq<char>, code: Seq<char>)
    requires
        plain_user_name(name),
        post_word(kind),
        plain_shortcode(code),
    ensures
        path_word(name),
        path_word(kind),
        path_word(code),
        parse::username_ok(name),
        parse::shortcode_ok(code),
        parse::post_kind(text::lower(kind)),
{
    plain_user_names_are_user_names(name);
    lemma_lower_post_word(kind);
    assert(parse::shortcode_ok(code)) by {
        assert forall|j: int| 0 <= j < code.len() implies #[trigger] parse::shortcode_char(
            code[j],
        ) by {
        }
        let j = choose|j: int| 0 <= j < code.len() && letter_or_digit(#[trigger] code[j]);
        assert(text::is_ascii_alnum(code[j]));
    }
}

/// A plain link whose path splits into a user name, a post word and a
/// shortcode parses to that post.
#[verifier::spinoff_prover]
proof fn lemma_user_post_path(
    pre: Seq<char>,
    path: Seq<char>,
    name: Seq<char>,
    kind: Seq<char>,
    code: Seq<char>,
)
    requires
        host_prefix(pre),
        plain_path(path),
        text::segments(path, CharClass::Slash) == seq![name, kind, code],
        !reserved_word(name),
        parse::username_ok(name),
        parse::post_kind(text::lower(kind)),
        parse::shortcode_ok(code),
    ensures
        parse::target_of(pre + instagram_host() + path) == Ok::<TargetView, ParseErrorView>(
            TargetView::Post(code),
        ),
{
    lemma_plain_link(pre, path);
    let parts = parse::url_parts(path);
    assert(parts[0] == name && parts[1] == kind && parts[2] == code);
    assert(parse::username_target_of(parts) == Some(TargetView::Post(code)));
}

/// A plain link whose path splits into a post word and a shortcode parses
/// to that post.
#[verifier::spinoff_prover]
proof fn lemma_post_path(pre: Seq<char>, path: Seq<char>, kind: Seq<char>, code: Seq<char>)
    requires
        host_prefix(pre),
        plain_path(path),
        text::segments(path, CharClass::Slash) == seq![kind, code],
        parse::post_kind(text::lower(kind)),
        parse::shortcode_ok(code),
    ensures
        parse::target_of(pre + instagram_host() + path) == Ok::<TargetView, ParseErrorView>(
            TargetView::Post(code),
        ),
{
    lemma_plain_link(pre, path);
    let parts = parse::url_parts(path);
    assert(parts[0] == kind && parts[1] == code);
}

/// A post link under a user name, `instagram.com/USER/KIND/CODE` with or
/// without a final `/` and behind any scheme or `www.`, parses to the post
/// for each post kind (`p`, `reel`, `reels`, `tv`): the same target as
/// `instagram.com/KIND/CODE`.
#[verifier::spinoff_prover]
pub proof fn user_post_links_parse_to_the_post(
    pre: Seq<char>,
    name: Seq<char>,
    kind: Seq<char>,
    code: Seq<char>,
)
    requires
        host_prefix(pre),
        plain_user_name(name),
        !reserved_word(name),
        post_word(kind),
        plain_shortcode(code),
    ensures
        parse::target_of(pre + instagram_host() + (name + seq!['/'] + kind + seq!['/'] + code))
            == Ok::<TargetView, ParseErrorView>(TargetView::Post(code)),
        parse::target_of(
            pre + instagram_host() + (name + seq!['/'] + kind + seq!['/'] + code + seq!['/']),
        ) == Ok::<TargetView, ParseErrorView>(TargetView::Post(code)),
        parse::target_of(pre + instagram_host() + (kind + seq!['/'] + code)) == Ok::<
            TargetView,
            ParseErrorView,
        >(TargetView::Post(code)),
        parse::target_of(pre + instagram_host() + (kind + seq!['/'] + code + seq!['/'])) == Ok::<
            TargetView,
            ParseErrorView,
        >(TargetView::Post(code)),
{
    lemma_words(name, kind, code);
    let slash = seq!['/'];
    lemma_two_words(kind, code);
    lemma_post_path(pre, kind + slash + code, kind, code);
    lemma_post_path(pre, kind + slash + code + slash, kind, code);
    lemma_three_words(name, kind, code);
    lemma_user_post_path(pre, name + slash + kind + slash + code, name, kind, code);
    lemma_user_post_path(pre, name + slash + kind + slash + code + slash, name, kind, code);
}

/// A location id as Instagram writes it: 1 to 32 ASCII digits.
pub open spec fn plain_location_id(s: Seq<char>) -> bool {
    &&& 1 <= s.len() <= 32
    &&& forall|j: int| 0 <= j < s.len() ==> '0' <= #[trigger] s[j] <= '9'
}

/// A hashtag of plain text: 1 to 128 ASCII letters, ASCII digits and `_`.
pub open spec fn plain_hashtag(s: Seq<char>) -> bool {
    &&& 1 <= s.len() <= 128
    &&& forall|j: int| 0 <= j < s.len() ==> letter_or_digit(#[trigger] s[j]) || s[j] == '_'
}

/// `explore`
pub open spec fn explore_word() -> Seq<char> {
    seq!['e', 'x', 'p', 'l', 'o', 'r', 'e']
}

/// `locations`
pub open spec fn locations_word() -> Seq<char> {
    seq!['l', 'o', 'c', 'a', 't', 'i', 'o', 'n', 's']
}

/// `tags`
pub open spec fn tags_word() -> Seq<char> {
    seq!['t', 'a', 'g', 's']
}

proof fn lemma_explore_words()
    ensures
        path_word(explore_word()),
        path_word(locations_word()),
        path_word(tags_word()),
        text::lower(explore_word()) == explore_word(),
        text::lower(locations_word()) == locations_word(),
        text::lower(tags_word()) == tags_word(),
{
    lemma_lower_word(explore_word());
    lemma_lower_word(locations_word());
    lemma_lower_word(tags_word());
}

/// A location link, `instagram.com/explore/locations/ID` with or without a
/// final `/` and behind any scheme or `www.`, parses to that location.
#[verifier::spinoff_prover]
pub proof fn location_links_parse_to_the_location(pre: Seq<char>, id: Seq<char>)
    requires
        host_prefix(pre),
        plain_location_id(id),
    ensures
        parse::target_of(
            pre + instagram_host() + (explore_word() + seq!['/'] + locations_word() + seq!['/']
                + id),
        ) == Ok::<TargetView, ParseErrorView>(TargetView::Location(id)),
        parse::target_of(
            pre + instagram_host() + (explore_word() + seq!['/'] + locations_word() + seq!['/']
                + id + seq!['/']),
        ) == Ok::<TargetView, ParseErrorView>(TargetView::Location(id)),
{
    lemma_explore_words();
    assert(parse::location_ok(id));
    assert(path_word(id));
    let e = explore_word();
    let l = locations_word();
    let slash = seq!['/'];
    lemma_three_words(e, l, id);
    let p1 = e + slash + l + slash + id;
    let p2 = e + slash + l + slash + id + slash;
    lemma_plain_link(pre, p1);
    lemma_plain_link(pre, p2);
    let parts = seq![e, l, id];
    assert(parse::explore_of(parts) == Some(TargetView::Location(id)));
}

/// A hashtag link, `instagram.com/explore/tags/TAG` or
/// `instagram.com/tags/TAG`, with or without a final `/` and behind any
/// scheme or `www.`, parses to that hashtag, for every hashtag of ASCII
/// letters, digits and `_`.
#[verifier::spinoff_prover]
pub proof fn hashtag_links_parse_to_the_hashtag(pre: Seq<char>, tag: Seq<char>)
    requires
        host_prefix(pre),
        plain_hashtag(tag),
    ensures
        parse::target_of(
            pre + instagram_host() + (explore_word() + seq!['/'] + tags_word() + seq!['/'] + tag),
        ) == Ok::<TargetView, ParseErrorView>(TargetView::Hashtag(tag)),
        parse::target_of(
            pre + instagram_host() + (explore_word() + seq!['/'] + tags_word() + seq!['/'] + tag
                + seq!['/']),
        ) == Ok::<TargetView, ParseErrorView>(TargetView::Hashtag(tag)),
        parse::target_of(pre + instagram_host() + (tags_word() + seq!['/'] + tag)) == Ok::<
            TargetView,
            ParseErrorView,
        >(TargetView::Hashtag(tag)),
        parse::target_of(pre + instagram_host() + (tags_word() + seq!['/'] + tag + seq!['/']))
            == Ok::<TargetView, ParseErrorView>(TargetView::Hashtag(tag)),
{
    lemma_explore_words();
    assert(path_word(tag));
    assert(!tag.contains('%')) by {
        if tag.contains('%') {
            let k = choose|k: int| 0 <= k < tag.len() && tag[k] == '%';
            assert(letter_or_digit(tag[k]) || tag[k] == '_');
        }
    }
    percent_decoding_keeps_plain_text(tag);
    assert(is_ascii_chars(tag));
    is_ascii_chars_encode_utf8(tag);
    assert forall|j: int| 0 <= j < tag.len() implies #[trigger] parse::hashtag_char(tag[j]) by {}
    assert(parse::hashtag_ok(tag));
    let e = explore_word();
    let t = tags_word();
    let slash = seq!['/'];
    lemma_three_words(e, t, tag);
    let p1 = e + slash + t + slash + tag;
    let p2 = e + slash + t + slash + tag + slash;
    lemma_plain_link(pre, p1);
    lemma_plain_link(pre, p2);
    let parts = seq![e, t, tag];
    assert(parse::explore_of(parts) == Some(TargetView::Hashtag(tag)));
    lemma_two_words(t, tag);
    lemma_plain_link(pre, t + slash + tag);
    lemma_plain_link(pre, t + slash + tag + slash);
}


// ---------------------------------------------------------------------------
// Accepted names
// ---------------------------------------------------------------------------

/// A text is accepted as a shortcode exactly when it has 1 to 64
/// characters, all ASCII letters, ASCII digits, `_` or `-`, at least one of
/// them a letter or a digit.
pub proof fn shortcodes_are_plain_shortcodes(s: Seq<char>)
    ensures
        parse::shortcode_ok(s) <==> plain_shortcode(s),
{
    assert forall|i: int| 0 <= i < s.len() implies #[trigger] parse::shortcode_char(s[i]) == (
    letter_or_digit(s[i]) || s[i] == '_' || s[i] == '-') && text::is_ascii_alnum(s[i])
        == letter_or_digit(s[i]) by {}
    if parse::shortcode_ok(s) {
        let j = choose|j: int| 0 <= j < s.len() && #[trigger] text::is_ascii_alnum(s[j]);
        assert(letter_or_digit(s[j]));
        assert forall|i: int| 0 <= i < s.len() implies letter_or_digit(#[trigger] s[i]) || s[i]
            == '_' || s[i] == '-' by {
            assert(parse::shortcode_char(s[i]));
        }
    }
    if plain_shortcode(s) {
        let j = choose|j: int| 0 <= j < s.len() && letter_or_digit(#[trigger] s[j]);
        assert(text::is_ascii_alnum(s[j]));
        assert forall|i: int| 0 <= i < s.len() implies #[trigger] parse::shortcode_char(s[i]) by {
            assert(letter_or_digit(s[i]) || s[i] == '_' || s[i] == '-');
        }
    }
}

/// A text is accepted as a user name exactly when it is a plain user name,
/// or `@` followed by one.
pub proof fn user_names_are_plain_user_names(s: Seq<char>)
    ensures
        parse::username_ok(s) <==> plain_user_name(s) || (s.len() > 0 && s[0] == '@'
            && plain_user_name(s.drop_first())),
{
    let t = parse::username_body(s);
    if parse::username_ok(s) {
        assert forall|j: int| 0 <= j < t.len() implies letter_or_digit(#[trigger] t[j]) || t[j]
            == '_' || t[j] == '.' by {
            assert(parse::username_char(t[j]));
        }
    }
    if plain_user_name(t) {
        assert forall|j: int| 0 <= j < t.len() implies #[trigger] parse::username_char(t[j]) by {}
    }
    if s.len() > 0 && s[0] == '@' {
        assert(!plain_user_name(s)) by {
            assert(!(letter_or_digit(s[0]) || s[0] == '_' || s[0] == '.'));
        }
    }
}

/// A text is accepted as a location id exactly when it is 1 to 32 ASCII digits.
pub proof fn location_ids_are_plain_location_ids(s: Seq<char>)
    ensures
        parse::location_ok(s) <==> plain_location_id(s),
{
    if parse::location_ok(s) {
        assert forall|i: int| 0 <= i < s.len() implies '0' <= #[trigger] s[i] <= '9' by {
            assert(text::is_ascii_digit(s[i]));
        }
    }
    if plain_location_id(s) {
        assert forall|i: int| 0 <= i < s.len() implies #[trigger] text::is_ascii_digit(s[i]) by {
            assert('0' <= s[i] <= '9');
        }
    }
}

/// A text of ASCII characters is accepted as a hashtag exactly when it has
/// 1 to 128 characters, all ASCII letters, ASCII digits or `_`.
pub proof fn ascii_hashtags_are_plain_hashtags(s: Seq<char>)
    requires
        is_ascii_chars(s),
    ensures
        parse::hashtag_ok(s) <==> plain_hashtag(s),
{
    is_ascii_chars_encode_utf8(s);
    if parse::hashtag_ok(s) {
        assert forall|j: int| 0 <= j < s.len() implies letter_or_digit(#[trigger] s[j]) || s[j]
            == '_' by {
            assert('\0' <= s[j] <= '\u{7f}');
            assert(parse::hashtag_char(s[j]));
        }
    }
    if plain_hashtag(s) {
        assert forall|j: int| 0 <= j < s.len() implies #[trigger] parse::hashtag_char(s[j]) by {
            assert('\0' <= s[j] <= '\u{7f}');
            assert(letter_or_digit(s[j]) || s[j] == '_');
        }
    }
}

// ---------------------------------------------------------------------------
// Share links, quoting, engine options
// ---------------------------------------------------------------------------

/// `share`
pub open spec fn share_word() -> Seq<char> {
    seq!['s', 'h', 'a', 'r', 'e']
}

/// A share link, `instagram.com/share/CODE` or `instagram.com/share/KIND/CODE`
/// for each post kind, with or without a final `/` and behind any scheme or
/// `www.`, parses to the post with that shortcode.
#[verifier::spinoff_prover]
pub proof fn share_links_parse_to_the_post(pre: Seq<char>, kind: Seq<char>, code: Seq<char>)
    requires
        host_prefix(pre),
        post_word(kind),
        plain_shortcode(code),
    ensures
        parse::target_of(pre + instagram_host() + (share_word() + seq!['/'] + code)) == Ok::<
            TargetView,
            ParseErrorView,
        >(TargetView::Post(code)),
        parse::target_of(pre + instagram_host() + (share_word() + seq!['/'] + code + seq!['/']))
            == Ok::<TargetView, ParseErrorView>(TargetView::Post(code)),
        parse::target_of(
            pre + instagram_host() + (share_word() + seq!['/'] + kind + seq!['/'] + code),
        ) == Ok::<TargetView, ParseErrorView>(TargetView::Post(code)),
        parse::target_of(
            pre + instagram_host() + (share_word() + seq!['/'] + kind + seq!['/'] + code
                + seq!['/']),
        ) == Ok::<TargetView, ParseErrorView>(TargetView::Post(code)),
{
    let w = share_word();
    lemma_lower_word(w);
    lemma_lower_post_word(kind);
    shortcodes_are_plain_shortcodes(code);
    assert(path_word(w));
    assert(path_word(kind));
    assert(path_word(code));
    let slash = seq!['/'];
    lemma_two_words(w, code);
    lemma_plain_link(pre, w + slash + code);
    lemma_plain_link(pre, w + slash + code + slash);
    assert(parse::share_code(seq![w, code]) == Some(code));
    lemma_three_words(w, kind, code);
    lemma_plain_link(pre, w + slash + kind + slash + code);
    lemma_plain_link(pre, w + slash + kind + slash + code + slash);
    assert(parse::share_code(seq![w, kind, code]) == Some(code));
}

/// One of the quoting characters that are stripped around a link.
pub open spec fn quote_char(c: char) -> bool {
    c == '<' || c == '>' || c == '"' || c == '\''
}

/// Quotes around an input (`<`, `>`, `"` and `'`) do not change what it
/// parses to, for an input without surrounding white space.
pub proof fn surrounding_quotes_are_ignored(p: Seq<char>, s: Seq<char>, q: Seq<char>)
    requires
        forall|i: int| 0 <= i < p.len() ==> quote_char(#[trigger] p[i]),
        forall|i: int| 0 <= i < q.len() ==> quote_char(#[trigger] q[i]),
        s.len() > 0,
        !text::is_whitespace_char(s[0]),
        !text::is_whitespace_char(s.last()),
    ensures
        parse::target_of(p + s + q) == parse::target_of(s),
{
    let x = p + s + q;
    if p.len() > 0 {
        assert(x[0] == p[0]);
    } else {
        assert(x[0] == s[0]);
    }
    if q.len() > 0 {
        assert(x.last() == q.last());
    } else {
        assert(x.last() == s.last());
    }
    lemma_trim_noop(x, CharClass::Whitespace);
    lemma_trim_noop(s, CharClass::Whitespace);
    lemma_trim_surrounded(p, s, q, CharClass::Quote);
}

/// As the documentation promises, instaloader is asked to save neither
/// captions nor JSON metadata, whatever the target and the destination.
pub proof fn no_captions_or_metadata(t: TargetView, dest: Seq<char>)
    ensures
        crate::download::engine_args(t, dest).contains("--no-captions"@),
        crate::download::engine_args(t, dest).contains("--no-metadata-json"@),
{
    let a = crate::download::engine_args(t, dest);
    assert(a[4] == "--no-captions"@);
    assert(a[5] == "--no-metadata-json"@);
}

/// A `+` sign and one hexadecimal digit read as that digit, as
/// `u8::from_str_radix` reads a signed number.
pub proof fn signed_hex_digit_reads_as_the_digit(n: u8)
    requires
        n < 16,
    ensures
        parse::hex_byte(43u8, lower_hex(n)) == Some(n),
        parse::hex_byte(43u8, upper_hex(n)) == Some(n),
{
}


/// `stories`
pub open spec fn stories_word() -> Seq<char> {
    seq!['s', 't', 'o', 'r', 'i', 'e', 's']
}

/// Story links are not downloaded: a link whose path starts with `stories`
/// is refused as invalid, with the link as given.
#[verifier::spinoff_prover]
pub proof fn story_links_are_refused(pre: Seq<char>, rest: Seq<char>)
    requires
        host_prefix(pre),
        plain_path(rest),
    ensures
        parse::target_of(pre + instagram_host() + (stories_word() + seq!['/'] + rest)) == Err::<
            TargetView,
            ParseErrorView,
        >(ParseErrorView::Invalid(pre + instagram_host() + (stories_word() + seq!['/'] + rest))),
{
    let w = stories_word();
    lemma_lower_word(w);
    let slash = seq!['/'];
    let path = w + slash + rest;
    lemma_joined(w, rest);
    lemma_plain_link(pre, path);
    lemma_segments_word(w, rest);
    let x = pre + instagram_host() + path;
    let parts = parse::url_parts(path);
    assert(parts[0] == w);
    assert(parse::url_target(x) is None);
    assert(x[pre.len() + 9int] == '.');
    assert(!parse::shortcode_ok(x)) by {
        assert(!parse::shortcode_char(x[pre.len() + 9int]));
    }
}

} // verus!
