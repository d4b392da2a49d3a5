use ins_downloader::download::DirEntryInfo;
use ins_downloader::flow::step;
use ins_downloader::flow::start_run;
use ins_downloader::flow::Action;
use ins_downloader::flow::EngineLocation;
use ins_downloader::flow::Event;
use ins_downloader::flow::Phase;
use ins_downloader::flow::RunOutput;
use ins_downloader::DownloadTarget;

fn strings(v: &[&str]) -> Vec<String> {
    v.iter().map(|s| s.to_string()).collect()
}

fn located() -> Event {
    Event::EngineFound(Ok(EngineLocation {
        program: "/r/instaloader".into(),
        python: None,
    }))
}

fn output(stdout: &str, stderr: &str, ok: bool, code: Option<i32>) -> Event {
    Event::RunFinished(Ok(RunOutput {
        stdout: stdout.into(),
        stderr: stderr.into(),
        exited_ok: ok,
        code,
    }))
}

#[test]
fn flow_successful_post_download() {
    let (mut run, a) = start_run(DownloadTarget::Post("DdivRY4CFX6".into()), "/d");
    assert!(matches!(a, Action::MakeDir(ref d) if d == "/d"));
    let a = step(&mut run, Event::DirMade(Ok(())));
    assert!(matches!(a, Action::FindEngine));
    let a = step(&mut run, located());
    assert!(matches!(a, Action::ListMedia(ref d) if d == "/d"));
    assert_eq!(run.result.command[0], "/r/instaloader");
    assert_eq!(run.result.command.last().unwrap(), "-DdivRY4CFX6");
    assert!(run.result.command.iter().any(|a| a == "--"));
    assert!(run.result.command.iter().any(|a| a == "/d/{shortcode}"));
    let a = step(&mut run, Event::Listed(strings(&["/d/old/x.jpg"])));
    match a {
        Action::RunEngine { program, python, args } => {
            assert_eq!(program, "/r/instaloader");
            assert!(python.is_none());
            assert_eq!(args.last().unwrap(), "-DdivRY4CFX6");
        }
        _ => panic!("expected the engine to run"),
    }
    let a = step(&mut run, output("ok", "", true, Some(0)));
    assert!(matches!(a, Action::ListMedia(_)));
    let a = step(
        &mut run,
        Event::Listed(strings(&[
            "/d/DdivRY4CFX6/b.mp4",
            "/d/old/x.jpg",
            "/d/DdivRY4CFX6/a.jpg",
        ])),
    );
    match a {
        Action::CheckSizes(files) => assert_eq!(
            files,
            strings(&["/d/DdivRY4CFX6/a.jpg", "/d/DdivRY4CFX6/b.mp4"])
        ),
        _ => panic!("expected a size check"),
    }
    let a = step(&mut run, Event::SizesChecked(vec![true, false]));
    assert!(matches!(a, Action::Finish));
    assert!(matches!(run.phase, Phase::Done));
    assert!(run.result.success);
    assert!(run.result.error.is_none());
    assert_eq!(run.result.stdout, "ok");
    assert_eq!(run.result.shortcode, "DdivRY4CFX6");
    assert_eq!(run.result.destination, "/d");
}

#[test]
fn flow_redownload_uses_target_folder() {
    let (mut run, _) = start_run(DownloadTarget::Hashtag("kitten".into()), "/d");
    step(&mut run, Event::DirMade(Ok(())));
    step(
        &mut run,
        Event::EngineFound(Ok(EngineLocation {
            program: "/r/instaloader".into(),
            python: Some("/r/bin/python3".into()),
        })),
    );
    assert_eq!(
        &run.result.command[..3],
        &strings(&["/r/bin/python3", "-m", "instaloader"])[..]
    );
    assert!(run.result.command.iter().any(|a| a == "/d/{target}"));
    step(&mut run, Event::Listed(strings(&["/d/#kitten/a.jpg"])));
    step(&mut run, output("", "", true, Some(-2)));
    let a = step(&mut run, Event::Listed(strings(&["/d/#kitten/a.jpg"])));
    assert!(matches!(a, Action::ListFolder(ref f) if f == "#kitten"));
    let a = step(
        &mut run,
        Event::FolderListed(vec![
            DirEntryInfo { path: "/d/#kitten/z.png".into(), file_name: "z.png".into(), is_file: true },
            DirEntryInfo { path: "/d/#kitten/a.jpg".into(), file_name: "a.jpg".into(), is_file: true },
            DirEntryInfo { path: "/d/#kitten/a.json".into(), file_name: "a.json".into(), is_file: true },
        ]),
    );
    match a {
        Action::CheckSizes(files) => {
            assert_eq!(files, strings(&["/d/#kitten/a.jpg", "/d/#kitten/z.png"]))
        }
        _ => panic!("expected a size check"),
    }
    // A size report of the wrong length is not what the run waits for.
    let a = step(&mut run, Event::SizesChecked(vec![true]));
    assert!(matches!(a, Action::CheckSizes(_)));
    assert!(!run.result.success);
    step(&mut run, Event::SizesChecked(vec![false, false]));
    assert!(matches!(run.phase, Phase::Done));
    assert!(!run.result.success);
    assert_eq!(
        run.result.error.as_deref(),
        Some("instaloader 退出码 Some(-2) 且未写入媒体文件")
    );
}

#[test]
fn flow_failures_finish_with_errors() {
    let (mut run, _) = start_run(DownloadTarget::Post("CODE".into()), "/d");
    let a = step(&mut run, Event::DirMade(Err("denied".into())));
    assert!(matches!(a, Action::Finish));
    assert_eq!(run.result.error.as_deref(), Some("无法创建目标目录: denied"));
    assert!(run.result.stdout.is_empty() && run.result.stderr.is_empty());
    assert_eq!(run.result.shortcode, "CODE");
    assert_eq!(run.result.engine, "instaloader");
    // Once done, nothing changes.
    let a = step(&mut run, Event::DirMade(Ok(())));
    assert!(matches!(a, Action::Finish));

    let (mut run, _) = start_run(DownloadTarget::Post("CODE".into()), "/d");
    step(&mut run, Event::DirMade(Ok(())));
    step(&mut run, Event::EngineFound(Err("not found".into())));
    assert_eq!(run.result.error.as_deref(), Some("not found"));
    assert!(run.result.command.is_empty());

    let (mut run, _) = start_run(DownloadTarget::Post("CODE".into()), "/d");
    step(&mut run, Event::DirMade(Ok(())));
    step(&mut run, located());
    step(&mut run, Event::Listed(vec![]));
    step(&mut run, Event::RunFinished(Err("no such file".into())));
    assert!(matches!(run.phase, Phase::Done));
    assert_eq!(
        run.result.error.as_deref(),
        Some("启动 instaloader 失败: no such file")
    );

    let (run, a) = start_run(DownloadTarget::Profile(String::new()), "/d");
    assert!(matches!(a, Action::Finish));
    assert_eq!(run.result.error.as_deref(), Some("empty target"));
}

#[test]
fn flow_ignores_unexpected_events() {
    let (mut run, _) = start_run(DownloadTarget::Post("CODE".into()), "/d");
    let a = step(&mut run, Event::Listed(strings(&["/d/a.jpg"])));
    assert!(matches!(a, Action::MakeDir(_)));
    assert!(run.before.is_empty());
    assert!(matches!(run.phase, Phase::MakingDir));
}
