use ins_downloader::download::command_line;
use ins_downloader::download::dir_error_message;
use ins_downloader::download::exit_code_string;
use ins_downloader::download::filter_media;
use ins_downloader::download::is_batch_script;
use ins_downloader::download::is_media;
use ins_downloader::download::launch_error_message;
use ins_downloader::download::new_media_files;
use ins_downloader::download::settle;
use ins_downloader::download::sorted_media;
use ins_downloader::download::start_result;
use ins_downloader::download::DirEntryInfo;
use ins_downloader::order::sort_strings;
use ins_downloader::order::text_less;
use ins_downloader::parse::percent_decode;
use ins_downloader::parse_links;
use ins_downloader::parse_shortcode;
use ins_downloader::parse_target;
use ins_downloader::DownloadTarget;
use ins_downloader::ParseError;

fn strings(v: &[&str]) -> Vec<String> {
    v.iter().map(|s| s.to_string()).collect()
}

#[test]
fn labels_and_folders_agree() {
    let targets = vec![
        DownloadTarget::Post("DdivRY4CFX6".into()),
        DownloadTarget::Profile("natgeo".into()),
        DownloadTarget::Hashtag("kitten".into()),
        DownloadTarget::Location("362629379".into()),
    ];
    let labels = ["DdivRY4CFX6", "natgeo", "#kitten", "%362629379"];
    for (t, l) in targets.iter().zip(labels.iter()) {
        assert_eq!(t.display_label(), *l);
        assert_eq!(t.folder_name(), t.display_label());
    }
    assert!(targets[0].is_post());
    assert!(!targets[1].is_post());
    assert_eq!(targets[0].instaloader_target(), format!("-{}", targets[0].display_label()));
    assert_eq!(targets[2].instaloader_target(), targets[2].display_label());
}

#[test]
fn native_forms_parse_back() {
    for t in [
        DownloadTarget::Post("DdivRY4CFX6".into()),
        DownloadTarget::Location("362629379".into()),
        DownloadTarget::Hashtag("kitten_2".into()),
    ] {
        assert_eq!(parse_target(&t.instaloader_target()).unwrap(), t);
    }
}

#[test]
fn surrounding_whitespace_and_quotes_are_ignored() {
    assert_eq!(
        parse_target(" \t<https://www.instagram.com/p/DdivRY4CFX6/>\r\n").unwrap(),
        DownloadTarget::Post("DdivRY4CFX6".into())
    );
    assert_eq!(
        parse_target("\u{3000}\"#kitten\"\u{3000}").unwrap(),
        DownloadTarget::Hashtag("kitten".into())
    );
    assert_eq!(parse_target(" \u{00a0} "), Err(ParseError::Empty));
    assert_eq!(parse_target("'\"<>'"), Err(ParseError::Empty));
}

#[test]
fn invalid_inputs_report_the_cleaned_text() {
    assert_eq!(
        parse_target("  <not a link>  "),
        Err(ParseError::Invalid("not a link".into()))
    );
    assert_eq!(
        parse_shortcode("  instagram.com/natgeo  "),
        Err(ParseError::Invalid("instagram.com/natgeo".into()))
    );
    assert_eq!(
        parse_target("https://www.instagram.com/stories/natgeo/123/"),
        Err(ParseError::Invalid(
            "https://www.instagram.com/stories/natgeo/123/".into()
        ))
    );
}

#[test]
fn url_forms_and_case() {
    assert_eq!(
        parse_target("HTTPS://WWW.INSTAGRAM.COM/P/DdivRY4CFX6/").unwrap(),
        DownloadTarget::Post("DdivRY4CFX6".into())
    );
    assert_eq!(
        parse_target("https://www.instagram.com/share/AbC_12").unwrap(),
        DownloadTarget::Post("AbC_12".into())
    );
    assert_eq!(
        parse_target("https://www.instagram.com/tags/kitten").unwrap(),
        DownloadTarget::Hashtag("kitten".into())
    );
    assert_eq!(
        parse_target("https://www.instagram.com/@nat.geo/").unwrap(),
        DownloadTarget::Profile("@nat.geo".into())
    );
    assert_eq!(
        parse_target("https://www.instagram.com/natgeo/tagged/").unwrap(),
        DownloadTarget::Profile("natgeo".into())
    );
    assert!(parse_target("https://www.instagram.com/.natgeo/").is_err());
    assert!(parse_target("https://www.instagram.com/explore/people/").is_err());
    assert!(parse_target("https://www.instagram.com/p/").is_err());
    assert!(parse_target("https://www.instagram.com/").is_err());
    assert!(parse_target("https://www.instagram.com/natgeo#fragment").is_ok());
    assert_eq!(
        parse_target("https://www.instagram.com/explore/locations/12345?x=1").unwrap(),
        DownloadTarget::Location("12345".into())
    );
}

#[test]
fn shortcode_limits() {
    let long = "a".repeat(64);
    assert_eq!(parse_shortcode(&long).unwrap(), long);
    assert!(parse_shortcode(&"a".repeat(65)).is_err());
    assert!(parse_shortcode("___").is_err());
    assert!(parse_shortcode("abc$").is_err());
    assert!(parse_target("%").is_err());
    assert!(parse_target(&format!("%{}", "1".repeat(33))).is_err());
    assert!(parse_target("%12a").is_err());
    assert!(parse_target("-").is_err());
}

#[test]
fn hashtags_use_unicode_letters_and_byte_length() {
    assert_eq!(
        parse_target("#猫").unwrap(),
        DownloadTarget::Hashtag("猫".into())
    );
    // 43 three-byte characters are 129 bytes: over the limit.
    assert!(parse_target(&format!("#{}", "猫".repeat(43))).is_err());
    assert!(parse_target(&format!("#{}", "猫".repeat(42))).is_ok());
    assert!(parse_target("#kit ten").is_err());
    assert!(parse_target("#").is_err());
}

#[test]
fn percent_decoding() {
    assert_eq!(percent_decode("%E7%8C%AB"), "猫");
    assert_eq!(percent_decode("a%41b"), "aAb");
    assert_eq!(percent_decode("%+4"), "\u{4}");
    assert_eq!(percent_decode("%zz%4"), "%zz%4");
    assert_eq!(percent_decode("%41"), "A");
    assert_eq!(percent_decode("100%"), "100%");
    assert_eq!(percent_decode("plain_text"), "plain_text");
    assert_eq!(percent_decode("%FF"), "\u{FFFD}");
}

#[test]
fn batches_deduplicate_and_report_errors() {
    let input = "#kitten\n#kitten, \n;https://www.instagram.com/p/DdivRY4CFX6/;\nnot a link\n\n";
    assert_eq!(
        parse_links(input).unwrap(),
        vec![
            DownloadTarget::Hashtag("kitten".into()),
            DownloadTarget::Post("DdivRY4CFX6".into()),
        ]
    );
    assert_eq!(
        parse_links("  not a link \n bad$ "),
        Err(ParseError::Invalid("not a link \n bad$".into()))
    );
    assert_eq!(parse_links(" \n ,; \r\n"), Err(ParseError::Empty));
}

#[test]
fn error_messages() {
    assert_eq!(ParseError::Empty.message(), "请粘贴 Instagram 链接");
    assert_eq!(
        ParseError::Invalid("x".into()).message(),
        "无法解析链接: x"
    );
    assert_eq!(dir_error_message("denied"), "无法创建目标目录: denied");
    assert_eq!(launch_error_message("missing"), "启动 instaloader 失败: missing");
}

#[test]
fn media_names() {
    assert!(is_media("a.jpg"));
    assert!(is_media("a.b.JPEG"));
    assert!(is_media(".hidden.mp4"));
    assert!(!is_media(".mp4"));
    assert!(!is_media("mp4"));
    assert!(!is_media("a.txt"));
    assert!(!is_media("a.jpg.json"));
    assert!(!is_media("a."));
    assert!(!is_media(".."));
}

#[test]
fn media_listing_is_filtered_and_sorted() {
    let entries = vec![
        DirEntryInfo { path: "/d/b.jpg".into(), file_name: "b.jpg".into(), is_file: true },
        DirEntryInfo { path: "/d/a.txt".into(), file_name: "a.txt".into(), is_file: true },
        DirEntryInfo { path: "/d/c.mp4".into(), file_name: "c.mp4".into(), is_file: false },
        DirEntryInfo { path: "/d/a.png".into(), file_name: "a.png".into(), is_file: true },
    ];
    assert_eq!(filter_media(&entries), strings(&["/d/b.jpg", "/d/a.png"]));
    assert_eq!(sorted_media(&entries), strings(&["/d/a.png", "/d/b.jpg"]));
}

#[test]
fn sorting_follows_string_order() {
    let v = strings(&["b", "a", "ab", "", "B", "é", "a"]);
    let mut expected = v.clone();
    expected.sort();
    assert_eq!(sort_strings(&v), expected);
    assert!(text_less(&"a".to_string(), &"ab".to_string()));
    assert!(!text_less(&"b".to_string(), &"ab".to_string()));
    assert!(!text_less(&"a".to_string(), &"a".to_string()));
}

#[test]
fn new_files_are_the_sorted_difference() {
    let before = strings(&["/d/x.jpg", "/d/y.jpg"]);
    let after = strings(&["/d/z.jpg", "/d/x.jpg", "/d/a.mp4", "/d/y.jpg"]);
    assert_eq!(
        new_media_files(&before, &after),
        strings(&["/d/a.mp4", "/d/z.jpg"])
    );
    assert!(new_media_files(&after, &before).is_empty());
}

#[test]
fn command_line_records_program_and_arguments() {
    let args = strings(&["--", "-CODE"]);
    assert_eq!(
        command_line(Some("/r/bin/python3"), "/r/instaloader", &args),
        strings(&["/r/bin/python3", "-m", "instaloader", "--", "-CODE"])
    );
    assert_eq!(
        command_line(None, "/r/instaloader", &args),
        strings(&["/r/instaloader", "--", "-CODE"])
    );
}

#[test]
fn start_result_records_the_target() {
    let r = start_result(&DownloadTarget::Hashtag("kitten".into()), "/tmp/d");
    assert_eq!(r.shortcode, "#kitten");
    assert_eq!(r.engine, "instaloader");
    assert_eq!(r.destination, "/tmp/d");
    assert!(!r.success);
    assert!(r.error.is_none());
    let empty = start_result(&DownloadTarget::Post(String::new()), "/tmp/d");
    assert_eq!(empty.error.as_deref(), Some("empty target"));
}

#[test]
fn settle_succeeds_exactly_with_a_nonempty_file() {
    let mut r = start_result(&DownloadTarget::Post("CODE".into()), "/d");
    r.media_files = strings(&["/d/CODE/a.jpg", "/d/CODE/b.jpg"]);
    settle(&mut r, false, Some(1), &vec![false, true]);
    assert!(r.success);
    assert!(r.error.is_none());

    let mut r = start_result(&DownloadTarget::Post("CODE".into()), "/d");
    r.media_files = strings(&["/d/CODE/a.jpg"]);
    r.stdout = "  fetched  ".into();
    r.stderr = "429 Too Many Requests\n".into();
    settle(&mut r, true, Some(0), &vec![false]);
    assert!(!r.success);
    assert_eq!(r.error.as_deref(), Some("fetched  \n429 Too Many Requests"));

    let mut r = start_result(&DownloadTarget::Post("CODE".into()), "/d");
    settle(&mut r, false, Some(1), &vec![]);
    assert!(!r.success);
    assert_eq!(
        r.error.as_deref(),
        Some("instaloader 退出码 Some(1) 且未写入媒体文件")
    );
    let mut r = start_result(&DownloadTarget::Post("CODE".into()), "/d");
    settle(&mut r, false, None, &vec![]);
    assert_eq!(
        r.error.as_deref(),
        Some("instaloader 退出码 None 且未写入媒体文件")
    );
}

#[test]
fn labels_parse_back() {
    for t in [
        DownloadTarget::Post("DdivRY4CFX6".into()),
        DownloadTarget::Location("362629379".into()),
        DownloadTarget::Hashtag("kitten".into()),
    ] {
        assert_eq!(parse_target(&t.display_label()).unwrap(), t);
    }
    // A shortcode starting with `-` reads as native syntax.
    assert_eq!(
        parse_target(&DownloadTarget::Post("-abc".into()).display_label()).unwrap(),
        DownloadTarget::Post("abc".into())
    );
    // A profile's label is a bare word, which reads as a shortcode.
    assert_eq!(
        parse_target(&DownloadTarget::Profile("natgeo".into()).display_label()).unwrap(),
        DownloadTarget::Post("natgeo".into())
    );
}

#[test]
fn exit_codes_read_as_debug_format() {
    for code in [None, Some(0), Some(1), Some(-1), Some(137), Some(i32::MAX), Some(i32::MIN)] {
        assert_eq!(exit_code_string(code), format!("{:?}", code));
    }
}

#[test]
fn batch_scripts_by_extension() {
    assert!(is_batch_script("instaloader.cmd"));
    assert!(is_batch_script("instaloader.BAT"));
    assert!(!is_batch_script("instaloader.exe"));
    assert!(!is_batch_script("instaloader"));
    assert!(!is_batch_script(".cmd"));
}
