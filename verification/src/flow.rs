//! The course of one download as a state machine: each step takes what the
//! caller observed (an event) and says what to do next (an action). The
//! caller performs the actions (creating the directory, locating and running
//! the engine, listing files, checking their sizes) and reports back.
use vstd::prelude::*;

use crate::download;
use crate::download::DirEntryInfo;
use crate::download::DownloadResult;
use crate::order;
use crate::parse;
use crate::parse::DownloadTarget;

verus! {

/// Where a download stands.
#[derive(Clone, Copy, Debug)]
pub enum Phase {
    /// Waiting for the destination directory to be created.
    MakingDir,
    /// Waiting for the engine to be located.
    FindingEngine,
    /// Waiting for the media files present before the run.
    ListingBefore,
    /// Waiting for the engine to finish.
    Running,
    /// Waiting for the media files present after the run.
    ListingAfter,
    /// Waiting for the listing of the target's own folder.
    ListingFolder,
    /// Waiting for which media files are non-empty.
    CheckingSizes,
    /// Finished; the result is final.
    Done,
}

/// Where the engine was found: the program, and the bundled Python to run
/// it with, if there is one.
pub struct EngineLocation {
    pub program: String,
    pub python: Option<String>,
}

/// What a finished engine process left.
pub struct RunOutput {
    pub stdout: String,
    pub stderr: String,
    /// Whether the process exited successfully.
    pub exited_ok: bool,
    /// The exit code, when the process had one.
    pub code: Option<i32>,
}

/// What the caller observed.
pub enum Event {
    /// Creating the destination directory succeeded, or failed with this text.
    DirMade(Result<(), String>),
    /// The engine was located, or could not be, with this text.
    EngineFound(Result<EngineLocation, String>),
    /// The media files now under the destination.
    Listed(Vec<String>),
    /// The engine ran, or could not be started, with this text.
    RunFinished(Result<RunOutput, String>),
    /// The entries of the target's folder under the destination.
    FolderListed(Vec<DirEntryInfo>),
    /// For each recorded media file, whether it is non-empty.
    SizesChecked(Vec<bool>),
}

/// What the caller is to do next.
pub enum Action {
    /// Create this directory and its parents.
    MakeDir(String),
    /// Locate the engine.
    FindEngine,
    /// List the media files under this directory and one level below.
    ListMedia(String),
    /// Run the engine with these arguments.
    RunEngine { program: String, python: Option<String>, args: Vec<String> },
    /// List the folder of this name under the destination.
    ListFolder(String),
    /// Tell which of these files are non-empty.
    CheckSizes(Vec<String>),
    /// Nothing more; the result is final.
    Finish,
}

/// An [`Action`] as a mathematical value.
pub enum ActionView {
    MakeDir(Seq<char>),
    FindEngine,
    ListMedia(Seq<char>),
    RunEngine(Seq<char>, Option<Seq<char>>, Seq<Seq<char>>),
    ListFolder(Seq<char>),
    CheckSizes(Seq<Seq<char>>),
    Finish,
}

impl View for Action {
    type V = ActionView;

    open spec fn view(&self) -> ActionView {
        match self {
            Action::MakeDir(d) => ActionView::MakeDir(d@),
            Action::FindEngine => ActionView::FindEngine,
            Action::ListMedia(d) => ActionView::ListMedia(d@),
            Action::RunEngine { program, python, args } => ActionView::RunEngine(
                program@,
                parse::opt_string_view(*python),
                order::strings_view(args@),
            ),
            Action::ListFolder(f) => ActionView::ListFolder(f@),
            Action::CheckSizes(files) => ActionView::CheckSizes(order::strings_view(files@)),
            Action::Finish => ActionView::Finish,
        }
    }
}

/// One download in progress.
pub struct DownloadRun {
    /// The result as far as it is known.
    pub result: DownloadResult,
    /// Where the download stands.
    pub phase: Phase,
    /// What is downloaded.
    pub target: DownloadTarget,
    /// The arguments given to the engine.
    pub args: Vec<String>,
    /// Where the engine was found.
    pub located: Option<EngineLocation>,
    /// The media files present before the run.
    pub before: Vec<String>,
    /// Whether the engine exited successfully.
    pub exited_ok: bool,
    /// The engine's exit code.
    pub code: Option<i32>,
}

/// What the caller has to do in the current phase.
pub open spec fn pending(run: DownloadRun) -> ActionView {
    match run.phase {
        Phase::MakingDir => ActionView::MakeDir(run.result.destination@),
        Phase::FindingEngine => ActionView::FindEngine,
        Phase::ListingBefore => ActionView::ListMedia(run.result.destination@),
        Phase::Running => match run.located {
            Some(loc) => ActionView::RunEngine(
                loc.program@,
                parse::opt_string_view(loc.python),
                order::strings_view(run.args@),
            ),
            None => ActionView::Finish,
        },
        Phase::ListingAfter => ActionView::ListMedia(run.result.destination@),
        Phase::ListingFolder => ActionView::ListFolder(parse::folder(run.target@)),
        Phase::CheckingSizes => ActionView::CheckSizes(order::strings_view(run.result.media_files@)),
        Phase::Done => ActionView::Finish,
    }
}

/// Whether the engine has been located by this phase.
pub open spec fn engine_located_by(p: Phase) -> bool {
    p is ListingBefore || p is Running || p is ListingAfter || p is ListingFolder
        || p is CheckingSizes
}

/// What holds of a run at every step: it carries the target's label and the
/// engine's name; until it is done it has neither succeeded nor failed, and
/// once done it succeeded exactly when it has no error; from the moment the engine is located, and in any
/// run that succeeded, its location is known; and once it is known, the
/// arguments are those of the target and destination and the recorded
/// command line is the engine's invocation followed by them.
pub open spec fn run_inv(run: DownloadRun) -> bool {
    &&& run.result.shortcode@ == parse::label(run.target@)
    &&& run.result.engine@ == download::engine_name()
    &&& !(run.phase is Done) ==> !run.result.success && run.result.error is None
    &&& run.phase is Done ==> (run.result.success <==> run.result.error is None)
    &&& engine_located_by(run.phase) ==> run.located is Some
    &&& run.result.success ==> run.located is Some
    &&& run.located matches Some(loc) ==> {
        &&& order::strings_view(run.args@) == download::engine_args(
            run.target@,
            run.result.destination@,
        )
        &&& order::strings_view(run.result.command@) == download::invocation(
            parse::opt_string_view(loc.python),
            loc.program@,
        ) + order::strings_view(run.args@)
    }
}

/// Whether `event` is what the run waits for in its phase.
pub open spec fn expected(run: DownloadRun, event: Event) -> bool {
    match (run.phase, event) {
        (Phase::MakingDir, Event::DirMade(_)) => true,
        (Phase::FindingEngine, Event::EngineFound(_)) => true,
        (Phase::ListingBefore, Event::Listed(_)) => true,
        (Phase::Running, Event::RunFinished(_)) => true,
        (Phase::ListingAfter, Event::Listed(_)) => true,
        (Phase::ListingFolder, Event::FolderListed(_)) => true,
        (Phase::CheckingSizes, Event::SizesChecked(flags)) => flags.len()
            == run.result.media_files.len(),
        _ => false,
    }
}

/// The result with a different error.
pub open spec fn with_error(r: DownloadResult, e: Option<String>) -> DownloadResult {
    DownloadResult { error: e, ..r }
}

/// The run in the phase `p`.
pub open spec fn in_phase(run: DownloadRun, p: Phase) -> DownloadRun {
    DownloadRun { phase: p, ..run }
}

/// What the caller has to do in the current phase.
pub fn next_action(run: &DownloadRun) -> (a: Action)
    ensures
        a@ == pending(*run),
{
    match run.phase {
        Phase::MakingDir => Action::MakeDir(run.result.destination.clone()),
        Phase::FindingEngine => Action::FindEngine,
        Phase::ListingBefore => Action::ListMedia(run.result.destination.clone()),
        Phase::Running => match &run.located {
            Some(loc) => Action::RunEngine {
                program: loc.program.clone(),
                python: match &loc.python {
                    Some(p) => Some(p.clone()),
                    None => None,
                },
                args: clone_strings(&run.args),
            },
            None => Action::Finish,
        },
        Phase::ListingAfter => Action::ListMedia(run.result.destination.clone()),
        Phase::ListingFolder => Action::ListFolder(run.target.folder_name()),
        Phase::CheckingSizes => Action::CheckSizes(clone_strings(&run.result.media_files)),
        Phase::Done => Action::Finish,
    }
}

fn clone_strings(v: &Vec<String>) -> (r: Vec<String>)
    ensures
        order::strings_view(r@) == order::strings_view(v@),
{
    let mut r: Vec<String> = Vec::new();
    let mut i: usize = 0;
    while i < v.len()
        invariant
            i <= v.len(),
            order::strings_view(r@) == order::strings_view(v@).take(i as int),
        decreases v.len() - i,
    {
        let s = v[i].clone();
        let ghost prev = order::strings_view(r@);
        r.push(s);
        proof {
            assert(order::strings_view(r@) =~= prev.push(s@));
            assert(order::strings_view(v@).take(i + 1) =~= order::strings_view(v@).take(
                i as int,
            ).push(v@[i as int]@));
        }
        i = i + 1;
    }
    assert(order::strings_view(v@).take(v.len() as int) =~= order::strings_view(v@));
    r
}

/// Start downloading `target` into `destination`: a target with an empty
/// label is finished at once with the error `empty target`; any other starts
/// by creating the destination.
pub fn start_run(target: DownloadTarget, destination: &str) -> (r: (DownloadRun, Action))
    ensures
        run_inv(r.0),
        r.0.target == target,
        r.0.result.shortcode@ == parse::label(target@),
        r.0.result.engine@ == download::engine_name(),
        r.0.result.destination@ == destination@,
        r.0.result.command@.len() == 0,
        r.0.result.media_files@.len() == 0,
        r.0.result.stdout@ == Seq::<char>::empty(),
        r.0.result.stderr@ == Seq::<char>::empty(),
        !r.0.result.success,
        parse::label(target@).len() == 0 ==> r.0.phase is Done && (r.0.result.error matches Some(
            e,
        ) && e@ == download::empty_target_message()),
        parse::label(target@).len() > 0 ==> r.0.phase is MakingDir,
        r.1@ == pending(r.0),
{
    let result = download::start_result(&target, destination);
    let phase = if result.error.is_some() {
        Phase::Done
    } else {
        Phase::MakingDir
    };
    let run = DownloadRun {
        result,
        phase,
        target,
        args: Vec::new(),
        located: None,
        before: Vec::new(),
        exited_ok: false,
        code: None,
    };
    let a = next_action(&run);
    (run, a)
}

/// Take in what the caller observed and say what to do next.
///
/// An event the run does not wait for changes nothing. Otherwise: a failed
/// directory creation, a missing engine or a failed start finishes the run
/// with the matching error; a located engine fixes the arguments and the
/// recorded command line; the listings before and after the run give the new
/// media files, and when there are none the target's own folder is listed
/// instead; the sizes of the media files settle the run (see
/// `download::settle`).
pub fn step(run: &mut DownloadRun, event: Event) -> (a: Action)
    requires
        run_inv(*old(run)),
    ensures
        run_inv(*final(run)),
        a@ == pending(*final(run)),
        final(run).target == old(run).target,
        !expected(*old(run), event) ==> *final(run) == *old(run),
        old(run).phase is Done ==> *final(run) == *old(run),
        expected(*old(run), event) ==> match event {
            Event::DirMade(Err(e)) => *final(run) == in_phase(
                DownloadRun {
                    result: with_error(old(run).result, final(run).result.error),
                    ..*old(run)
                },
                Phase::Done,
            ) && (final(run).result.error matches Some(m) && m@ == download::dir_error(e@)),
            Event::DirMade(Ok(())) => *final(run) == in_phase(*old(run), Phase::FindingEngine),
            Event::EngineFound(Err(e)) => *final(run) == in_phase(
                DownloadRun {
                    result: with_error(old(run).result, Some(e)),
                    ..*old(run)
                },
                Phase::Done,
            ),
            Event::EngineFound(Ok(loc)) => {
                &&& final(run).phase is ListingBefore
                &&& order::strings_view(final(run).args@) == download::engine_args(
                    old(run).target@,
                    old(run).result.destination@,
                )
                &&& order::strings_view(final(run).result.command@) == download::invocation(
                    parse::opt_string_view(loc.python),
                    loc.program@,
                ) + order::strings_view(final(run).args@)
                &&& final(run).located == Some(loc)
                &&& final(run).result == (DownloadResult {
                    command: final(run).result.command,
                    ..old(run).result
                })
                &&& final(run).before == old(run).before
                &&& final(run).exited_ok == old(run).exited_ok
                &&& final(run).code == old(run).code
            },
            Event::Listed(files) => if old(run).phase is ListingBefore {
                *final(run) == (DownloadRun {
                    phase: Phase::Running,
                    before: files,
                    ..*old(run)
                })
            } else {
                let fresh = download::fresh_texts(
                    order::strings_view(old(run).before@),
                    order::strings_view(files@),
                );
                &&& final(run).result == (DownloadResult {
                    media_files: final(run).result.media_files,
                    ..old(run).result
                })
                &&& final(run).args == old(run).args
                &&& final(run).before == old(run).before
                &&& final(run).located == old(run).located
                &&& final(run).exited_ok == old(run).exited_ok
                &&& final(run).code == old(run).code
                &&& fresh.len() == 0 ==> final(run).phase is ListingFolder
                    && final(run).result.media_files == old(run).result.media_files
                &&& fresh.len() > 0 ==> {
                    &&& final(run).phase is CheckingSizes
                    &&& order::ascending(order::strings_view(final(run).result.media_files@))
                    &&& order::strings_view(final(run).result.media_files@).to_multiset()
                        == fresh.to_multiset()
                    &&& forall|x: Seq<char>|
                        #[trigger] order::strings_view(final(run).result.media_files@).contains(x)
                            <==> (order::strings_view(files@).contains(x)
                            && !order::strings_view(old(run).before@).contains(x))
                    &&& order::strings_view(files@).no_duplicates() ==> order::strings_view(
                        final(run).result.media_files@,
                    ).no_duplicates()
                }
            },
            Event::RunFinished(Err(e)) => *final(run) == in_phase(
                DownloadRun {
                    result: with_error(old(run).result, final(run).result.error),
                    ..*old(run)
                },
                Phase::Done,
            ) && (final(run).result.error matches Some(m) && m@ == download::launch_error(e@)),
            Event::RunFinished(Ok(out)) => *final(run) == (DownloadRun {
                phase: Phase::ListingAfter,
                result: DownloadResult {
                    stdout: out.stdout,
                    stderr: out.stderr,
                    ..old(run).result
                },
                exited_ok: out.exited_ok,
                code: out.code,
                ..*old(run)
            }),
            Event::FolderListed(entries) => {
                &&& final(run).phase is CheckingSizes
                &&& final(run).result == (DownloadResult {
                    media_files: final(run).result.media_files,
                    ..old(run).result
                })
                &&& final(run).args == old(run).args
                &&& final(run).before == old(run).before
                &&& final(run).located == old(run).located
                &&& final(run).exited_ok == old(run).exited_ok
                &&& final(run).code == old(run).code
                &&& order::ascending(order::strings_view(final(run).result.media_files@))
                &&& order::strings_view(final(run).result.media_files@).to_multiset()
                    == download::media_paths(entries@).to_multiset()
                &&& forall|x: Seq<char>|
                    #[trigger] order::strings_view(final(run).result.media_files@).contains(x)
                        <==> exists|i: int|
                        0 <= i < entries.len() && #[trigger] download::media_entry(entries@[i])
                            && entries@[i].path@ == x
            },
            Event::SizesChecked(flags) => {
                &&& final(run).phase is Done
                &&& final(run).result.success == download::any_set(flags@)
                &&& final(run).result.success ==> final(run).result.error is None
                &&& !final(run).result.success ==> (final(run).result.error matches Some(m) && m@
                    == download::failure_text(
                    old(run).result.stdout@,
                    old(run).result.stderr@,
                    old(run).code,
                ))
                &&& final(run).result.media_files == old(run).result.media_files
                &&& final(run).result.command == old(run).result.command
                &&& final(run).result.stdout == old(run).result.stdout
                &&& final(run).result.stderr == old(run).result.stderr
                &&& final(run).result.shortcode == old(run).result.shortcode
                &&& final(run).result.engine == old(run).result.engine
                &&& final(run).result.destination == old(run).result.destination
            },
        },
{
    let phase = run.phase;
    match (phase, event) {
        (Phase::MakingDir, Event::DirMade(made)) => {
            match made {
                Ok(()) => {
                    run.phase = Phase::FindingEngine;
                },
                Err(e) => {
                    run.result.error = Some(download::dir_error_message(e.as_str()));
                    run.phase = Phase::Done;
                },
            }
        },
        (Phase::FindingEngine, Event::EngineFound(found)) => {
            match found {
                Ok(loc) => {
                    let args = download::instaloader_args(
                        &run.target,
                        run.result.destination.as_str(),
                    );
                    let python: Option<&str> = match &loc.python {
                        Some(p) => Some(p.as_str()),
                        None => None,
                    };
                    let command = download::command_line(python, loc.program.as_str(), &args);
                    run.result.command = command;
                    run.args = args;
                    run.located = Some(loc);
                    run.phase = Phase::ListingBefore;
                },
                Err(e) => {
                    run.result.error = Some(e);
                    run.phase = Phase::Done;
                },
            }
        },
        (Phase::ListingBefore, Event::Listed(files)) => {
            run.before = files;
            run.phase = Phase::Running;
        },
        (Phase::Running, Event::RunFinished(finished)) => {
            match finished {
                Ok(out) => {
                    run.result.stdout = out.stdout;
                    run.result.stderr = out.stderr;
                    run.exited_ok = out.exited_ok;
                    run.code = out.code;
                    run.phase = Phase::ListingAfter;
                },
                Err(e) => {
                    run.result.error = Some(download::launch_error_message(e.as_str()));
                    run.phase = Phase::Done;
                },
            }
        },
        (Phase::ListingAfter, Event::Listed(after)) => {
            let fresh = download::new_media_files(&run.before, &after);
            if fresh.len() == 0 {
                proof {
                    let fv = download::fresh_texts(
                        order::strings_view(run.before@),
                        order::strings_view(after@),
                    );
                    vstd::seq_lib::to_multiset_len(order::strings_view(fresh@));
                    vstd::seq_lib::to_multiset_len(fv);
                }
                run.phase = Phase::ListingFolder;
            } else {
                proof {
                    let fv = download::fresh_texts(
                        order::strings_view(run.before@),
                        order::strings_view(after@),
                    );
                    vstd::seq_lib::to_multiset_len(order::strings_view(fresh@));
                    vstd::seq_lib::to_multiset_len(fv);
                }
                run.result.media_files = fresh;
                run.phase = Phase::CheckingSizes;
            }
        },
        (Phase::ListingFolder, Event::FolderListed(entries)) => {
            run.result.media_files = download::sorted_media(&entries);
            run.phase = Phase::CheckingSizes;
        },
        (Phase::CheckingSizes, Event::SizesChecked(flags)) => {
            if flags.len() == run.result.media_files.len() {
                download::settle(&mut run.result, run.exited_ok, run.code, &flags);
                run.phase = Phase::Done;
            }
        },
        _ => {},
    }
    next_action(run)
}

} // verus!
