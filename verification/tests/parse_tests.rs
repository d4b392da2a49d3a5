use ins_downloader::parse_links;
use ins_downloader::parse_shortcode;
use ins_downloader::parse_target;
use ins_downloader::DownloadTarget;
use ins_downloader::ParseError;

const CODE: &str = "DdivRY4CFX6";

#[test]
fn parse_p_url_plain() {
    assert_eq!(parse_shortcode("instagram.com/p/DdivRY4CFX6").unwrap(), CODE);
}

#[test]
fn parse_p_url_https_www_slash() {
    assert_eq!(
        parse_shortcode("https://www.instagram.com/p/DdivRY4CFX6/").unwrap(),
        CODE
    );
}

#[test]
fn parse_p_url_http_no_www() {
    assert_eq!(
        parse_shortcode("http://instagram.com/p/DdivRY4CFX6").unwrap(),
        CODE
    );
}

#[test]
fn parse_p_url_with_query_string() {
    assert_eq!(
        parse_shortcode("https://www.instagram.com/p/DdivRY4CFX6/?igsh=abc123&img_index=1")
            .unwrap(),
        CODE
    );
}

#[test]
fn parse_reel_url_with_www() {
    assert_eq!(
        parse_shortcode("https://www.instagram.com/reel/ReelCode99/").unwrap(),
        "ReelCode99"
    );
}

#[test]
fn parse_reel_url_without_www() {
    assert_eq!(
        parse_shortcode("https://instagram.com/reel/ReelCode99").unwrap(),
        "ReelCode99"
    );
}

#[test]
fn parse_reels_plural_url() {
    assert_eq!(
        parse_shortcode("https://www.instagram.com/reels/ReelCode99/").unwrap(),
        "ReelCode99"
    );
}

#[test]
fn parse_tv_url_with_query() {
    assert_eq!(
        parse_shortcode("https://www.instagram.com/tv/TvCode_01/?hl=en").unwrap(),
        "TvCode_01"
    );
}

#[test]
fn parse_tv_url_bare_host() {
    assert_eq!(
        parse_shortcode("instagram.com/tv/TvCode_01").unwrap(),
        "TvCode_01"
    );
}

#[test]
fn parse_username_prefixed_post() {
    assert_eq!(
        parse_target("https://www.instagram.com/natgeo/p/DdivRY4CFX6/").unwrap(),
        DownloadTarget::Post(CODE.into())
    );
}

#[test]
fn parse_username_prefixed_reel() {
    assert_eq!(
        parse_target("https://www.instagram.com/natgeo/reel/ReelCode99/").unwrap(),
        DownloadTarget::Post("ReelCode99".into())
    );
    assert_eq!(
        parse_target("https://www.instagram.com/natgeo/reels/ReelCode99").unwrap(),
        DownloadTarget::Post("ReelCode99".into())
    );
}

#[test]
fn parse_instagr_am_and_mobile_hosts() {
    assert_eq!(
        parse_shortcode("https://instagr.am/p/DdivRY4CFX6/").unwrap(),
        CODE
    );
    assert_eq!(
        parse_shortcode("https://m.instagram.com/reel/ReelCode99").unwrap(),
        "ReelCode99"
    );
}

#[test]
fn parse_share_url() {
    assert_eq!(
        parse_target("https://www.instagram.com/share/p/DdivRY4CFX6/").unwrap(),
        DownloadTarget::Post(CODE.into())
    );
    assert_eq!(
        parse_target("https://www.instagram.com/share/reel/ReelCode99").unwrap(),
        DownloadTarget::Post("ReelCode99".into())
    );
}

#[test]
fn parse_profile_url() {
    assert_eq!(
        parse_target("https://www.instagram.com/natgeo/").unwrap(),
        DownloadTarget::Profile("natgeo".into())
    );
    assert_eq!(
        parse_target("instagram.com/natgeo").unwrap(),
        DownloadTarget::Profile("natgeo".into())
    );
}

#[test]
fn parse_hashtag_url_and_native() {
    assert_eq!(
        parse_target("https://www.instagram.com/explore/tags/kitten/").unwrap(),
        DownloadTarget::Hashtag("kitten".into())
    );
    assert_eq!(
        parse_target("#kitten").unwrap(),
        DownloadTarget::Hashtag("kitten".into())
    );
    assert_eq!(
        parse_target("https://www.instagram.com/explore/tags/%E7%8C%AB/").unwrap(),
        DownloadTarget::Hashtag("猫".into())
    );
}

#[test]
fn parse_location_url_and_native() {
    assert_eq!(
        parse_target(
            "https://www.instagram.com/explore/locations/362629379/plymouth-naval-memorial/"
        )
        .unwrap(),
        DownloadTarget::Location("362629379".into())
    );
    assert_eq!(
        parse_target("%362629379").unwrap(),
        DownloadTarget::Location("362629379".into())
    );
}

#[test]
fn parse_native_shortcode_dash() {
    assert_eq!(
        parse_target("-DdivRY4CFX6").unwrap(),
        DownloadTarget::Post(CODE.into())
    );
}

#[test]
fn parse_bare_shortcode() {
    assert_eq!(parse_shortcode("DdivRY4CFX6").unwrap(), CODE);
    assert_eq!(parse_shortcode("  ABC-123_x  ").unwrap(), "ABC-123_x");
}

#[test]
fn parse_links_batch() {
    let input = "https://www.instagram.com/p/DdivRY4CFX6/\nhttps://instagram.com/reel/ReelCode99\nTvCode_01";
    let codes = parse_links(input).unwrap();
    assert_eq!(
        codes,
        vec![
            DownloadTarget::Post("DdivRY4CFX6".into()),
            DownloadTarget::Post("ReelCode99".into()),
            DownloadTarget::Post("TvCode_01".into()),
        ]
    );
}

#[test]
fn parse_links_mixed_formats() {
    let input = "https://www.instagram.com/p/DdivRY4CFX6/\nhttps://www.instagram.com/natgeo/\nhttps://www.instagram.com/explore/tags/kitten/\n%362629379";
    let targets = parse_links(input).unwrap();
    assert_eq!(
        targets,
        vec![
            DownloadTarget::Post("DdivRY4CFX6".into()),
            DownloadTarget::Profile("natgeo".into()),
            DownloadTarget::Hashtag("kitten".into()),
            DownloadTarget::Location("362629379".into()),
        ]
    );
}

#[test]
fn parse_links_newline_separated_with_blank_lines_and_crlf() {
    let input = "https://www.instagram.com/p/DdivRY4CFX6/\r\n\r\nhttps://www.instagram.com/reel/ReelCode99/\n\ninstagram.com/tv/TvCode_01\n";
    let codes = parse_links(input).unwrap();
    assert_eq!(
        codes,
        vec![
            DownloadTarget::Post("DdivRY4CFX6".into()),
            DownloadTarget::Post("ReelCode99".into()),
            DownloadTarget::Post("TvCode_01".into()),
        ]
    );
}

#[test]
fn instaloader_target_strings_match_docs() {
    assert_eq!(
        DownloadTarget::Post(CODE.into()).instaloader_target(),
        "-DdivRY4CFX6"
    );
    assert_eq!(
        DownloadTarget::Profile("natgeo".into()).instaloader_target(),
        "natgeo"
    );
    assert_eq!(
        DownloadTarget::Hashtag("kitten".into()).instaloader_target(),
        "#kitten"
    );
    assert_eq!(
        DownloadTarget::Location("362629379".into()).instaloader_target(),
        "%362629379"
    );
}

#[test]
fn reject_non_instagram_url() {
    assert!(parse_shortcode("https://example.com/p/DdivRY4CFX6").is_err());
}

#[test]
fn reject_empty() {
    assert_eq!(parse_shortcode("  "), Err(ParseError::Empty));
    assert_eq!(parse_links(""), Err(ParseError::Empty));
}
