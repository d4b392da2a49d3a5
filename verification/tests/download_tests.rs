use ins_downloader::download::instaloader_args;
use ins_downloader::DownloadTarget;

#[test]
fn instaloader_args_match_documented_targets() {
    let dest = "/tmp/ins-dl";
    let post = instaloader_args(&DownloadTarget::Post("DdivRY4CFX6".into()), dest);
    assert!(post.iter().any(|a| a == "-DdivRY4CFX6"));
    assert!(post.iter().any(|a| a.contains("{shortcode}")));

    let profile = instaloader_args(&DownloadTarget::Profile("natgeo".into()), dest);
    assert!(profile.iter().any(|a| a == "natgeo"));
    assert!(profile.iter().any(|a| a.ends_with("{target}")));

    let hashtag = instaloader_args(&DownloadTarget::Hashtag("kitten".into()), dest);
    assert!(hashtag.iter().any(|a| a == "#kitten"));

    let location = instaloader_args(&DownloadTarget::Location("362629379".into()), dest);
    assert!(location.iter().any(|a| a == "%362629379"));
}
