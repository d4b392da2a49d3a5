//! The decisions around downloading a target with instaloader: the command
//! line it gets, which files count as media, which of them a run produced,
//! and whether the run succeeded and with what message.
//!
//! Running the engine, touching the file system and reading the environment
//! are the caller's part; it hands the outcomes to these functions as plain
//! values.
use vstd::prelude::*;

use crate::order;
use crate::order::sort_strings;
use crate::parse;
use crate::parse::DownloadTarget;
use crate::text;
use crate::text::CharClass;
use crate::text::chars_of;
use crate::text::concat;

verus! {

broadcast use vstd::string::group_string_axioms;

// ---------------------------------------------------------------------------
// Results
// ---------------------------------------------------------------------------

/// The outcome of downloading one target.
#[derive(Debug, Clone)]
pub struct DownloadResult {
    /// The target's label (see `DownloadTarget::display_label`).
    pub shortcode: String,
    /// The engine's name.
    pub engine: String,
    /// The command line that was run, program first.
    pub command: Vec<String>,
    /// The destination directory.
    pub destination: String,
    /// Whether media were obtained.
    pub success: bool,
    /// The media files that belong to this download.
    pub media_files: Vec<String>,
    /// What the engine wrote to standard output.
    pub stdout: String,
    /// What the engine wrote to standard error.
    pub stderr: String,
    /// Why the download failed, when it did.
    pub error: Option<String>,
}

/// The engine's name.
pub open spec fn engine_name() -> Seq<char> {
    "instaloader"@
}

/// The error recorded for a target whose label is empty.
pub open spec fn empty_target_message() -> Seq<char> {
    "empty target"@
}

/// The result recorded before anything is run: the target's label, the
/// engine's name and the destination, nothing run yet; a target with an
/// empty label is refused at once with the error `empty target`.
pub fn start_result(target: &DownloadTarget, destination: &str) -> (r: DownloadResult)
    ensures
        r.shortcode@ == parse::label(target@),
        r.engine@ == engine_name(),
        r.command@.len() == 0,
        r.destination@ == destination@,
        !r.success,
        r.media_files@.len() == 0,
        r.stdout@ == Seq::<char>::empty(),
        r.stderr@ == Seq::<char>::empty(),
        parse::label(target@).len() == 0 ==> (r.error matches Some(e) && e@ == empty_target_message()),
        parse::label(target@).len() > 0 ==> r.error is None,
{
    let label = target.display_label();
    let empty = label.as_str().is_empty();
    DownloadResult {
        shortcode: label,
        engine: "instaloader".to_owned(),
        command: Vec::new(),
        destination: destination.to_owned(),
        success: false,
        media_files: Vec::new(),
        stdout: String::new(),
        stderr: String::new(),
        error: if empty {
            Some("empty target".to_owned())
        } else {
            None
        },
    }
}

/// The error recorded when the destination directory cannot be created.
pub open spec fn dir_error(err: Seq<char>) -> Seq<char> {
    "无法创建目标目录: "@ + err
}

/// The error recorded when the engine cannot be started.
pub open spec fn launch_error(err: Seq<char>) -> Seq<char> {
    "启动 instaloader 失败: "@ + err
}

/// The error recorded when the destination directory cannot be created.
pub fn dir_error_message(err: &str) -> (r: String)
    ensures
        r@ == dir_error(err@),
{
    concat("无法创建目标目录: ", err)
}

/// The error recorded when the engine cannot be started.
pub fn launch_error_message(err: &str) -> (r: String)
    ensures
        r@ == launch_error(err@),
{
    concat("启动 instaloader 失败: ", err)
}

// ---------------------------------------------------------------------------
// Command line
// ---------------------------------------------------------------------------

/// The directory pattern for a target: posts go to `DEST/{shortcode}`,
/// everything else to `DEST/{target}`.
pub open spec fn dirname_pattern(t: parse::TargetView, dest: Seq<char>) -> Seq<char> {
    if t is Post {
        dest + "/{shortcode}"@
    } else {
        dest + "/{target}"@
    }
}

/// The arguments given to instaloader for a target and a destination.
pub open spec fn engine_args(t: parse::TargetView, dest: Seq<char>) -> Seq<Seq<char>> {
    seq![
        "--dirname-pattern"@,
        dirname_pattern(t, dest),
        "--filename-pattern"@,
        "{shortcode}"@,
        "--no-captions"@,
        "--no-metadata-json"@,
        "--no-video-thumbnails"@,
        "--max-connection-attempts"@,
        "2"@,
        "--request-timeout"@,
        "60"@,
        "--abort-on"@,
        "401,403,429"@,
        "--"@,
        parse::engine_arg(t),
    ]
}

/// The arguments given to instaloader for `target`, writing under `destination`.
pub fn instaloader_args(target: &DownloadTarget, destination: &str) -> (r: Vec<String>)
    ensures
        order::strings_view(r@) == engine_args(target@, destination@),
{
    let dirname = if target.is_post() {
        concat(destination, "/{shortcode}")
    } else {
        concat(destination, "/{target}")
    };
    let mut r: Vec<String> = Vec::new();
    r.push("--dirname-pattern".to_owned());
    r.push(dirname);
    r.push("--filename-pattern".to_owned());
    r.push("{shortcode}".to_owned());
    r.push("--no-captions".to_owned());
    r.push("--no-metadata-json".to_owned());
    r.push("--no-video-thumbnails".to_owned());
    r.push("--max-connection-attempts".to_owned());
    r.push("2".to_owned());
    r.push("--request-timeout".to_owned());
    r.push("60".to_owned());
    r.push("--abort-on".to_owned());
    r.push("401,403,429".to_owned());
    r.push("--".to_owned());
    r.push(target.instaloader_target());
    assert(order::strings_view(r@) =~= engine_args(target@, destination@));
    r
}

pub open spec fn opt_str_view(o: Option<&str>) -> Option<Seq<char>> {
    match o {
        Some(s) => Some(s@),
        None => None,
    }
}

/// How the engine is started: through its bundled Python as
/// `PYTHON -m instaloader`, or else as the program itself.
pub open spec fn invocation(python: Option<Seq<char>>, program: Seq<char>) -> Seq<Seq<char>> {
    match python {
        Some(py) => seq![py, "-m"@, "instaloader"@],
        None => seq![program],
    }
}

/// The command line recorded for a run: how the engine is started, then the arguments.
pub fn command_line(python: Option<&str>, program: &str, args: &Vec<String>) -> (r: Vec<String>)
    ensures
        order::strings_view(r@) == invocation(opt_str_view(python), program@)
            + order::strings_view(args@),
{
    let mut r: Vec<String> = Vec::new();
    match python {
        Some(py) => {
            r.push(py.to_owned());
            r.push("-m".to_owned());
            r.push("instaloader".to_owned());
        },
        None => {
            r.push(program.to_owned());
        },
    }
    let ghost head = order::strings_view(r@);
    assert(head =~= invocation(opt_str_view(python), program@));
    let mut i: usize = 0;
    while i < args.len()
        invariant
            i <= args.len(),
            order::strings_view(r@) == head + order::strings_view(args@).take(i as int),
        decreases args.len() - i,
    {
        let a = args[i].clone();
        let ghost before = order::strings_view(r@);
        r.push(a);
        proof {
            assert(order::strings_view(r@) =~= before.push(a@));
            assert(order::strings_view(args@).take(i + 1) =~= order::strings_view(args@).take(
                i as int,
            ).push(args@[i as int]@));
            assert(order::strings_view(r@) =~= head + order::strings_view(args@).take(i + 1));
        }
        i = i + 1;
    }
    assert(order::strings_view(args@).take(args.len() as int) =~= order::strings_view(args@));
    r
}

// ---------------------------------------------------------------------------
// Media files
// ---------------------------------------------------------------------------

/// The extension of a file name as `Path::extension` gives it: what follows
/// the last `.`, unless there is no `.`, the only `.` starts the name, or the
/// name is `..`.
pub open spec fn extension_of(name: Seq<char>) -> Option<Seq<char>> {
    let k = text::trail(name, CharClass::Dot, false);
    if k + 1 >= name.len() || name == seq!['.', '.'] {
        None
    } else {
        Some(name.skip(name.len() - k))
    }
}

/// The extensions of image and video files.
pub open spec fn media_extensions() -> Seq<Seq<char>> {
    seq![
        seq!['j', 'p', 'g'],
        seq!['j', 'p', 'e', 'g'],
        seq!['p', 'n', 'g'],
        seq!['w', 'e', 'b', 'p'],
        seq!['b', 'm', 'p'],
        seq!['h', 'e', 'i', 'c'],
        seq!['m', 'p', '4'],
        seq!['m', '4', 'v'],
        seq!['m', 'o', 'v'],
        seq!['w', 'e', 'b', 'm'],
        seq!['m', 'k', 'v'],
    ]
}

/// A file name with an image or video extension (in any ASCII case).
pub open spec fn media_name(name: Seq<char>) -> bool {
    match extension_of(name) {
        Some(e) => media_extensions().contains(text::lower(e)),
        None => false,
    }
}

fn media_extension_list() -> (r: Vec<Vec<char>>)
    ensures
        text::seq_views(r@) == media_extensions(),
{
    let r = vec![
        vec!['j', 'p', 'g'],
        vec!['j', 'p', 'e', 'g'],
        vec!['p', 'n', 'g'],
        vec!['w', 'e', 'b', 'p'],
        vec!['b', 'm', 'p'],
        vec!['h', 'e', 'i', 'c'],
        vec!['m', 'p', '4'],
        vec!['m', '4', 'v'],
        vec!['m', 'o', 'v'],
        vec!['w', 'e', 'b', 'm'],
        vec!['m', 'k', 'v'],
    ];
    assert(text::seq_views(r@) =~= media_extensions());
    r
}

/// Whether the file name `file_name` has an image or video extension.
pub fn is_media(file_name: &str) -> (b: bool)
    ensures
        b == media_name(file_name@),
{
    let v = chars_of(file_name);
    if v.len() == 2 && v[0] == '.' && v[1] == '.' {
        assert(v@ =~= seq!['.', '.']);
        return false;
    }
    assert(v@ != seq!['.', '.']);
    let k = text::trail_len(&v, CharClass::Dot, false);
    if k >= v.len() || k + 1 == v.len() {
        return false;
    }
    let ext = text::copy_range(&v, v.len() - k, v.len());
    assert(ext@ == v@.skip(v.len() - k));
    let exts = media_extension_list();
    assert(extension_of(v@) == Some(ext@));
    let mut j: usize = 0;
    while j < exts.len()
        invariant
            j <= exts.len(),
            v@ == file_name@,
            extension_of(v@) == Some(ext@),
            text::seq_views(exts@) == media_extensions(),
            forall|u: int| 0 <= u < j ==> media_extensions()[u] != text::lower(ext@),
        decreases exts.len() - j,
    {
        if text::equals_ignoring_case(&ext, &exts[j]) {
            assert(text::seq_views(exts@)[j as int] == exts@[j as int]@);
            assert(media_extensions()[j as int] == text::lower(ext@));
            assert(media_extensions().contains(text::lower(ext@)));
            return true;
        }
        j = j + 1;
    }
    false
}

/// A file name whose extension is `cmd` or `bat` (in any ASCII case): a
/// Windows batch script, which runs through `cmd /C`.
pub open spec fn batch_name(name: Seq<char>) -> bool {
    match extension_of(name) {
        Some(e) => text::lower(e) == seq!['c', 'm', 'd'] || text::lower(e) == seq!['b', 'a', 't'],
        None => false,
    }
}

/// Whether the file name `file_name` is that of a Windows batch script.
pub fn is_batch_script(file_name: &str) -> (b: bool)
    ensures
        b == batch_name(file_name@),
{
    let v = chars_of(file_name);
    if v.len() == 2 && v[0] == '.' && v[1] == '.' {
        assert(v@ =~= seq!['.', '.']);
        return false;
    }
    assert(v@ != seq!['.', '.']);
    let k = text::trail_len(&v, CharClass::Dot, false);
    if k >= v.len() || k + 1 == v.len() {
        return false;
    }
    let ext = text::copy_range(&v, v.len() - k, v.len());
    assert(ext@ == v@.skip(v.len() - k));
    let cmd = vec!['c', 'm', 'd'];
    let bat = vec!['b', 'a', 't'];
    assert(cmd@ == seq!['c', 'm', 'd'] && bat@ == seq!['b', 'a', 't']);
    let is_cmd = text::equals_ignoring_case(&ext, &cmd);
    let is_bat = text::equals_ignoring_case(&ext, &bat);
    is_cmd || is_bat
}

/// A directory entry as the caller saw it.
pub struct DirEntryInfo {
    /// The entry's path, as shown.
    pub path: String,
    /// The entry's file name.
    pub file_name: String,
    /// Whether the entry is a regular file.
    pub is_file: bool,
}

/// The paths of the entries that are files with a media extension, in the given order.
pub open spec fn media_paths(entries: Seq<DirEntryInfo>) -> Seq<Seq<char>>
    decreases entries.len(),
{
    if entries.len() == 0 {
        Seq::empty()
    } else {
        let prev = media_paths(entries.drop_last());
        let e = entries.last();
        if e.is_file && media_name(e.file_name@) {
            prev.push(e.path@)
        } else {
            prev
        }
    }
}

/// The paths of the entries that are files with a media extension, in the given order.
pub fn filter_media(entries: &Vec<DirEntryInfo>) -> (r: Vec<String>)
    ensures
        order::strings_view(r@) == media_paths(entries@),
{
    let mut r: Vec<String> = Vec::new();
    let mut i: usize = 0;
    while i < entries.len()
        invariant
            i <= entries.len(),
            order::strings_view(r@) == media_paths(entries@.take(i as int)),
        decreases entries.len() - i,
    {
        let e = &entries[i];
        proof {
            assert(entries@.take(i + 1).drop_last() =~= entries@.take(i as int));
            assert(entries@.take(i + 1).last() == entries@[i as int]);
        }
        if e.is_file && is_media(e.file_name.as_str()) {
            r.push(e.path.clone());
            proof {
                assert(order::strings_view(r@) =~= media_paths(entries@.take(i as int)).push(
                    e.path@,
                ));
            }
        }
        i = i + 1;
    }
    assert(entries@.take(entries.len() as int) =~= entries@);
    r
}

/// The media files of one directory listing, in ascending order.
pub fn sorted_media(entries: &Vec<DirEntryInfo>) -> (r: Vec<String>)
    ensures
        order::ascending(order::strings_view(r@)),
        order::strings_view(r@).to_multiset() == media_paths(entries@).to_multiset(),
        forall|x: Seq<char>|
            #[trigger] order::strings_view(r@).contains(x) <==> exists|i: int|
                0 <= i < entries.len() && #[trigger] media_entry(entries@[i]) && entries@[i].path@
                    == x,
{
    let found = filter_media(entries);
    let r = sort_strings(&found);
    proof {
        lemma_media_paths(entries@);
        assert forall|x: Seq<char>| #[trigger] order::strings_view(r@).contains(x)
            == media_paths(entries@).contains(x) by {
            vstd::seq_lib::to_multiset_contains(order::strings_view(r@), x);
            vstd::seq_lib::to_multiset_contains(media_paths(entries@), x);
        }
    }
    r
}

/// A directory entry that is a file with a media extension.
pub open spec fn media_entry(e: DirEntryInfo) -> bool {
    e.is_file && media_name(e.file_name@)
}

/// The media paths are exactly the paths of the media entries.
pub proof fn lemma_media_paths(entries: Seq<DirEntryInfo>)
    ensures
        forall|x: Seq<char>|
            #[trigger] media_paths(entries).contains(x) <==> exists|i: int|
                0 <= i < entries.len() && #[trigger] media_entry(entries[i]) && entries[i].path@
                    == x,
    decreases entries.len(),
{
    if entries.len() > 0 {
        let init = entries.drop_last();
        lemma_media_paths(init);
        let prev = media_paths(init);
        let n = entries.len() - 1;
        assert forall|x: Seq<char>| #[trigger] media_paths(entries).contains(x) <==> exists|i: int|
            0 <= i < entries.len() && #[trigger] media_entry(entries[i]) && entries[i].path@ == x by {
            if media_paths(entries).contains(x) {
                if prev.contains(x) {
                    let i = choose|i: int|
                        0 <= i < init.len() && #[trigger] media_entry(init[i]) && init[i].path@ == x;
                    assert(entries[i] == init[i]);
                } else {
                    let k = choose|k: int| 0 <= k < media_paths(entries).len() && media_paths(
                        entries,
                    )[k] == x;
                    assert(media_entry(entries[n]));
                }
            }
            if exists|i: int|
                0 <= i < entries.len() && #[trigger] media_entry(entries[i]) && entries[i].path@
                    == x {
                let i = choose|i: int|
                    0 <= i < entries.len() && #[trigger] media_entry(entries[i]) && entries[i].path@
                        == x;
                if i < n {
                    assert(entries[i] == init[i]);
                    assert(media_entry(init[i]) && init[i].path@ == x);
                    assert(prev.contains(x));
                    let k = choose|k: int| 0 <= k < prev.len() && prev[k] == x;
                    assert(media_paths(entries)[k] == x);
                } else {
                    assert(media_paths(entries)[prev.len() as int] == x);
                }
            }
        }
    }
}

/// Whether `v` holds a string with the text of `s`.
fn contains_text(v: &Vec<String>, s: &String) -> (b: bool)
    ensures
        b == order::strings_view(v@).contains(s@),
{
    let mut j: usize = 0;
    while j < v.len()
        invariant
            j <= v.len(),
            forall|u: int| 0 <= u < j ==> order::strings_view(v@)[u] != s@,
        decreases v.len() - j,
    {
        if v[j].eq(s) {
            assert(order::strings_view(v@)[j as int] == s@);
            return true;
        }
        j = j + 1;
    }
    false
}

/// The texts of `after` that `before` does not hold, in the order of `after`.
pub open spec fn fresh_texts(before: Seq<Seq<char>>, after: Seq<Seq<char>>) -> Seq<Seq<char>> {
    after.filter(|x: Seq<char>| !before.contains(x))
}

/// The media files present after a run that were not there before it, in ascending order.
pub fn new_media_files(before: &Vec<String>, after: &Vec<String>) -> (r: Vec<String>)
    ensures
        order::ascending(order::strings_view(r@)),
        order::strings_view(r@).to_multiset() == fresh_texts(
            order::strings_view(before@),
            order::strings_view(after@),
        ).to_multiset(),
        forall|x: Seq<char>|
            #[trigger] order::strings_view(r@).contains(x) <==> (order::strings_view(after@).contains(
                x,
            ) && !order::strings_view(before@).contains(x)),
        order::strings_view(after@).no_duplicates() ==> order::strings_view(r@).no_duplicates(),
{
    let ghost bv = order::strings_view(before@);
    let ghost av = order::strings_view(after@);
    let ghost keep = |x: Seq<char>| !bv.contains(x);
    let mut fresh: Vec<String> = Vec::new();
    let mut i: usize = 0;
    proof {
        reveal_with_fuel(Seq::<_>::filter, 1);
        assert(av.take(0) =~= Seq::<Seq<char>>::empty());
        assert(order::strings_view(fresh@) =~= Seq::<Seq<char>>::empty());
    }
    while i < after.len()
        invariant
            i <= after.len(),
            bv == order::strings_view(before@),
            av == order::strings_view(after@),
            keep == (|x: Seq<char>| !bv.contains(x)),
            order::strings_view(fresh@) == av.take(i as int).filter(keep),
        decreases after.len() - i,
    {
        proof {
            reveal_with_fuel(Seq::<_>::filter, 1);
            assert(av.take(i + 1).drop_last() =~= av.take(i as int));
            assert(av.take(i + 1).last() == after@[i as int]@);
        }
        if !contains_text(before, &after[i]) {
            fresh.push(after[i].clone());
            proof {
                assert(order::strings_view(fresh@) =~= av.take(i as int).filter(keep).push(
                    after@[i as int]@,
                ));
            }
        }
        i = i + 1;
    }
    assert(av.take(after.len() as int) =~= av);
    let r = sort_strings(&fresh);
    proof {
        let fr = av.filter(keep);
        let rv = order::strings_view(r@);
        av.filter_lemma(keep);
        assert forall|x: Seq<char>| #[trigger] rv.contains(x) <==> (av.contains(x) && !bv.contains(
            x,
        )) by {
            vstd::seq_lib::to_multiset_contains(rv, x);
            vstd::seq_lib::to_multiset_contains(fr, x);
            if fr.contains(x) {
                av.lemma_filter_contains_rev(keep, x);
                let k = choose|k: int| 0 <= k < fr.len() && fr[k] == x;
                assert(keep(fr[k]));
            }
            if av.contains(x) && !bv.contains(x) {
                let k = choose|k: int| 0 <= k < av.len() && av[k] == x;
                assert(keep(av[k]));
                assert(fr.contains(av[k]));
            }
        }
        if av.no_duplicates() {
            order::lemma_filter_no_duplicates(av, keep);
            order::lemma_same_multiset_no_duplicates(rv, fr);
        }
    }
    r
}

// ---------------------------------------------------------------------------
// Settling a run
// ---------------------------------------------------------------------------

/// The decimal digits, in order.
pub open spec fn digit_chars() -> Seq<char> {
    seq!['0', '1', '2', '3', '4', '5', '6', '7', '8', '9']
}

/// The decimal numeral of `n`, without leading zeros.
pub open spec fn decimal(n: nat) -> Seq<char>
    decreases n,
{
    if n < 10 {
        seq![digit_chars()[n as int]]
    } else {
        decimal(n / 10).push(digit_chars()[(n % 10) as int])
    }
}

/// The decimal numeral of `n`, behind `-` when it is negative.
pub open spec fn signed_decimal(n: int) -> Seq<char> {
    if n < 0 {
        seq!['-'] + decimal((-n) as nat)
    } else {
        decimal(n as nat)
    }
}

/// What `format!("{:?}", code)` writes for an exit code: `None`, or `Some(`,
/// the code in decimal, and `)`.
pub open spec fn exit_code_text(code: Option<i32>) -> Seq<char> {
    match code {
        None => seq!['N', 'o', 'n', 'e'],
        Some(n) => seq!['S', 'o', 'm', 'e', '('] + signed_decimal(n as int) + seq![')'],
    }
}

/// The decimal numeral of `n`.
fn decimal_chars(n: u64) -> (r: Vec<char>)
    ensures
        r@ == decimal(n as nat),
{
    let digits = vec!['0', '1', '2', '3', '4', '5', '6', '7', '8', '9'];
    assert(digits@ == digit_chars());
    let mut m = n;
    let mut out: Vec<char> = Vec::new();
    while m >= 10
        invariant
            digits@ == digit_chars(),
            decimal(n as nat) == decimal(m as nat) + out@,
        decreases m,
    {
        let c = digits[(m % 10) as usize];
        proof {
            assert(decimal(m as nat) == decimal((m / 10) as nat).push(c));
            assert(decimal((m / 10) as nat) + out@.insert(0, c) =~= decimal((m / 10) as nat).push(
                c,
            ) + out@);
        }
        out.insert(0, c);
        m = m / 10;
    }
    let c = digits[m as usize];
    proof {
        assert(decimal(m as nat) == seq![c]);
        assert(out@.insert(0, c) =~= seq![c] + out@);
    }
    out.insert(0, c);
    out
}

/// The exit code as `format!("{:?}", code)` writes it.
pub fn exit_code_string(code: Option<i32>) -> (r: String)
    ensures
        r@ == exit_code_text(code),
{
    match code {
        None => text::string_of(&vec!['N', 'o', 'n', 'e']),
        Some(n) => {
            let mut v = vec!['S', 'o', 'm', 'e', '('];
            let ghost head = v@;
            if n < 0 {
                v.push('-');
                let magnitude: u64 = (-(n as i64)) as u64;
                let digits = decimal_chars(magnitude);
                let mut i: usize = 0;
                let ghost base = v@;
                while i < digits.len()
                    invariant
                        i <= digits.len(),
                        v@ == base + digits@.take(i as int),
                    decreases digits.len() - i,
                {
                    v.push(digits[i]);
                    proof {
                        assert(digits@.take(i + 1) =~= digits@.take(i as int).push(digits@[i as int]));
                    }
                    i = i + 1;
                }
                proof {
                    assert(digits@.take(digits.len() as int) =~= digits@);
                    assert(base =~= head + seq!['-']);
                }
            } else {
                let digits = decimal_chars(n as u64);
                let mut i: usize = 0;
                let ghost base = v@;
                while i < digits.len()
                    invariant
                        i <= digits.len(),
                        v@ == base + digits@.take(i as int),
                    decreases digits.len() - i,
                {
                    v.push(digits[i]);
                    proof {
                        assert(digits@.take(i + 1) =~= digits@.take(i as int).push(digits@[i as int]));
                    }
                    i = i + 1;
                }
                proof {
                    assert(digits@.take(digits.len() as int) =~= digits@);
                }
            }
            v.push(')');
            proof {
                assert(v@ =~= exit_code_text(code));
            }
            text::string_of(&v)
        },
    }
}

/// Whether any flag is set.
pub open spec fn any_set(flags: Seq<bool>) -> bool {
    exists|i: int| 0 <= i < flags.len() && #[trigger] flags[i]
}

/// The error of a run that produced no media: the engine's output (standard
/// output, a line feed, standard error) trimmed, or, when that is empty, a
/// note with the exit code.
pub open spec fn failure_text(stdout: Seq<char>, stderr: Seq<char>, code: Option<i32>) -> Seq<
    char,
> {
    let combined = text::trim(stdout + seq!['\n'] + stderr);
    if combined.len() == 0 {
        "instaloader 退出码 "@ + exit_code_text(code) + " 且未写入媒体文件"@
    } else {
        combined
    }
}

/// Decide a finished run: it succeeded exactly when one of its media files
/// is non-empty (`nonempty[i]` tells whether `media_files[i]` is); whether the
/// engine exited cleanly does not change that. A failed run records
/// [`failure_text`] as its error; nothing else changes.
pub fn settle(result: &mut DownloadResult, exited_ok: bool, code: Option<i32>, nonempty: &Vec<bool>)
    requires
        nonempty.len() == old(result).media_files.len(),
        !old(result).success,
    ensures
        final(result).success == any_set(nonempty@),
        final(result).success ==> final(result).error == old(result).error,
        !final(result).success ==> (final(result).error matches Some(e) && e@ == failure_text(
            old(result).stdout@,
            old(result).stderr@,
            code,
        )),
        final(result).shortcode == old(result).shortcode,
        final(result).engine == old(result).engine,
        final(result).command == old(result).command,
        final(result).destination == old(result).destination,
        final(result).media_files == old(result).media_files,
        final(result).stdout == old(result).stdout,
        final(result).stderr == old(result).stderr,
{
    let mut any = false;
    let mut i: usize = 0;
    while i < nonempty.len()
        invariant
            i <= nonempty.len(),
            any <==> exists|t: int| 0 <= t < i && #[trigger] nonempty@[t],
        decreases nonempty.len() - i,
    {
        if nonempty[i] {
            any = true;
        }
        i = i + 1;
    }
    if exited_ok && any {
        result.success = true;
    } else if result.media_files.len() > 0 && any {
        result.success = true;
    } else {
        let mut combined = concat(result.stdout.as_str(), "\n");
        let err = chars_of(result.stderr.as_str());
        text::append_chars(&mut combined, &err);
        let cv = chars_of(combined.as_str());
        let trimmed = text::trim_chars(&cv, CharClass::Whitespace);
        proof {
            reveal_strlit("\n");
            assert(cv@ == result.stdout@ + seq!['\n'] + result.stderr@);
            assert(trimmed@ == text::trim(result.stdout@ + seq!['\n'] + result.stderr@));
        }
        if trimmed.len() == 0 {
            let mut msg = "instaloader 退出码 ".to_owned();
            let code_text = exit_code_string(code);
            text::append_chars(&mut msg, &chars_of(code_text.as_str()));
            text::append_chars(&mut msg, &chars_of(" 且未写入媒体文件"));
            result.error = Some(msg);
        } else {
            result.error = Some(text::string_of(&trimmed));
        }
    }
}

} // verus!
