use images_to_video::utils::{ffmpeg_path, image_paths, images_path, Error};
use images_to_video::{build_config, default_output_dir, Codec, Config};
use std::io;

fn strings(names: &[&str]) -> Vec<String> {
    names.iter().map(|s| s.to_string()).collect()
}

fn custom_message<T>(r: Result<T, Error>) -> String {
    match r {
        Err(Error::Custom(message)) => message,
        Err(other) => panic!("another error: {}", other.to_string()),
        Ok(_) => panic!("no error"),
    }
}

fn denied() -> io::Error {
    io::Error::new(io::ErrorKind::PermissionDenied, "denied")
}

#[test]
fn ffmpeg_path_accepts_an_existing_engine() {
    let r = ffmpeg_path("/usr/bin/ffmpeg", Ok(true));
    assert_eq!(r.ok(), Some("/usr/bin/ffmpeg".to_string()));
    let r = ffmpeg_path("ffmpeg", Ok(true));
    assert_eq!(r.ok(), Some("ffmpeg".to_string()));
    let r = ffmpeg_path("/opt/ffmpeg/", Ok(true));
    assert_eq!(r.ok(), Some("/opt/ffmpeg/".to_string()));
}

#[test]
fn ffmpeg_path_rejects_a_missing_file() {
    let r = ffmpeg_path("/usr/bin/ffmpeg", Ok(false));
    assert_eq!(custom_message(r), "/usr/bin/ffmpeg does not exist");
}

#[test]
fn ffmpeg_path_rejects_another_file_name() {
    let r = ffmpeg_path("/usr/bin/ffprobe", Ok(true));
    assert_eq!(custom_message(r), "File Name is not \"ffmpeg\"");
    let r = ffmpeg_path("/usr/bin/ffmpeg.exe", Ok(true));
    assert_eq!(custom_message(r), "File Name is not \"ffmpeg\"");
    let r = ffmpeg_path("/usr/bin/FFMPEG", Ok(true));
    assert_eq!(custom_message(r), "File Name is not \"ffmpeg\"");
}

#[test]
fn ffmpeg_path_reports_an_existing_path_without_file_name_as_wrongly_named() {
    let r = ffmpeg_path("/", Ok(true));
    assert_eq!(custom_message(r), "File Name is not \"ffmpeg\"");
    let r = ffmpeg_path("..", Ok(true));
    assert_eq!(custom_message(r), "File Name is not \"ffmpeg\"");
    let r = ffmpeg_path("/usr/bin/ffmpeg/..", Ok(true));
    assert_eq!(custom_message(r), "File Name is not \"ffmpeg\"");
}

#[test]
fn ffmpeg_path_reports_a_missing_path_without_file_name_as_missing() {
    let r = ffmpeg_path("/", Ok(false));
    assert_eq!(custom_message(r), "/ does not exist");
    let r = ffmpeg_path("", Ok(false));
    assert_eq!(custom_message(r), " does not exist");
}

#[test]
fn ffmpeg_path_hands_on_a_failed_probe() {
    match ffmpeg_path("/usr/bin/ffmpeg", Err(denied())) {
        Err(Error::Io(e)) => assert_eq!(e.kind(), io::ErrorKind::PermissionDenied),
        _ => panic!("expected the I/O error"),
    }
}

#[test]
fn image_paths_keeps_entries_with_extension_in_order() {
    let listing = strings(&["d/b.png", "d/notes", "d/a.png", "d/.hidden", "d/c.png", "d/a.png"]);
    let paths = image_paths(Ok(listing)).ok().unwrap();
    assert_eq!(paths, strings(&["d/a.png", "d/a.png", "d/b.png", "d/c.png"]));
}

#[test]
fn image_paths_of_nothing_is_empty() {
    assert_eq!(image_paths(Ok(Vec::new())).ok().unwrap(), Vec::<String>::new());
    assert_eq!(image_paths(Ok(strings(&["x", ".y"]))).ok().unwrap(), Vec::<String>::new());
}

#[test]
fn image_paths_hands_on_a_failed_listing() {
    assert!(matches!(image_paths(Err(denied())), Err(Error::Io(_))));
}

#[test]
fn images_path_derives_the_glob_from_a_shared_extension() {
    let listing = strings(&["/imgs/0001.png", "/imgs/0002.png", "/imgs/0003.png"]);
    let (dir, glob) = images_path("/imgs", true, Ok(listing)).ok().unwrap();
    assert_eq!(dir, "/imgs");
    assert_eq!(glob, "/imgs/*.png");
}

#[test]
fn images_path_with_one_frame() {
    let (dir, glob) = images_path("frames", true, Ok(strings(&["frames/0.tiff"]))).ok().unwrap();
    assert_eq!(dir, "frames");
    assert_eq!(glob, "frames/*.tiff");
}

#[test]
fn images_path_does_not_depend_on_listing_order() {
    let orders: [[&str; 3]; 6] = [
        ["a.png", "b.png", "c.png"],
        ["a.png", "c.png", "b.png"],
        ["b.png", "a.png", "c.png"],
        ["b.png", "c.png", "a.png"],
        ["c.png", "a.png", "b.png"],
        ["c.png", "b.png", "a.png"],
    ];
    for order in orders.iter() {
        let (_, glob) = images_path("d", true, Ok(strings(order))).ok().unwrap();
        assert_eq!(glob, "d/*.png");
        let sorted = image_paths(Ok(strings(order))).ok().unwrap();
        assert_eq!(sorted, strings(&["a.png", "b.png", "c.png"]));
    }
}

#[test]
fn images_path_takes_the_extension_of_the_smallest_entry() {
    let (_, glob) = images_path("d", true, Ok(strings(&["d/b.jpg", "d/a.png"]))).ok().unwrap();
    assert_eq!(glob, "d/*.png");
    let (_, glob) = images_path("d", true, Ok(strings(&["d/a.png", "d/b.jpg"]))).ok().unwrap();
    assert_eq!(glob, "d/*.png");
    let (_, glob) = images_path("d", true, Ok(strings(&["d/z", "d/b.jpg", "d/a"]))).ok().unwrap();
    assert_eq!(glob, "d/*.jpg");
}

#[test]
fn images_path_rejects_what_is_no_directory() {
    let r = images_path("/imgs", false, Ok(strings(&["/imgs/a.png"])));
    assert_eq!(custom_message(r), "/imgs must be a directory");
    let r = images_path("/imgs", false, Err(denied()));
    assert_eq!(custom_message(r), "/imgs must be a directory");
}

#[test]
fn images_path_rejects_an_empty_directory() {
    let r = images_path("/imgs", true, Ok(Vec::new()));
    assert_eq!(custom_message(r), "Empty Images Folder");
}

#[test]
fn images_path_rejects_a_directory_without_extensions() {
    let r = images_path("/imgs", true, Ok(strings(&["/imgs/a", "/imgs/.b", "/imgs/c"])));
    assert_eq!(custom_message(r), "Empty Images Folder");
}

#[test]
fn images_path_hands_on_a_failed_listing() {
    assert!(matches!(images_path("/imgs", true, Err(denied())), Err(Error::Io(_))));
}

fn frames() -> Result<Vec<String>, io::Error> {
    Ok(strings(&["/imgs/0002.png", "/imgs/0001.png"]))
}

#[test]
fn build_config_with_a_given_output_directory() {
    let mut config = build_config(
        "/bin/ffmpeg",
        Ok(true),
        "/imgs",
        true,
        frames(),
        Some("/out".to_string()),
        false,
        "Video-File",
        4,
        Codec::H264,
    )
    .ok()
    .unwrap();
    assert_eq!(config.ffmpeg_path(), "/bin/ffmpeg");
    assert_eq!(config.images_path(), "/imgs/*.png");
    assert_eq!(config.output_path(), "/out/Video-File");
    assert_eq!(config.frame_rate(), 4);
    assert_eq!(*config.codec(), Codec::H264);
}

#[test]
fn build_config_with_the_default_output_directory() {
    let mut config = build_config(
        "/bin/ffmpeg",
        Ok(true),
        "/imgs",
        true,
        frames(),
        None,
        true,
        "out.mov",
        25,
        Codec::ProRes,
    )
    .ok()
    .unwrap();
    assert_eq!(config.output_path(), "/imgs/Video/out.mov");
    assert_eq!(config.frame_rate(), 25);
    assert_eq!(*config.codec(), Codec::ProRes);
    assert_eq!(default_output_dir("/imgs"), "/imgs/Video");
}

#[test]
fn build_config_fails_where_the_default_directory_is_not_ready() {
    let r = build_config(
        "/bin/ffmpeg",
        Ok(true),
        "/imgs",
        true,
        frames(),
        None,
        false,
        "out.mov",
        25,
        Codec::ProRes,
    );
    assert_eq!(custom_message(r), "/imgs/Video already exists.");
}

#[test]
fn build_config_rejects_an_unset_codec_first() {
    let r = build_config(
        "/bin/nothing",
        Ok(false),
        "/imgs",
        false,
        Err(denied()),
        None,
        false,
        "out",
        4,
        Codec::Unset,
    );
    assert_eq!(custom_message(r), "Codec Not Set");
    let r = build_config(
        "/bin/ffmpeg",
        Ok(true),
        "/imgs",
        true,
        frames(),
        Some("/out".to_string()),
        true,
        "out",
        4,
        Codec::Unset,
    );
    assert_eq!(custom_message(r), "Codec Not Set");
}

#[test]
fn build_config_rejects_a_missing_engine() {
    let r = build_config(
        "/bin/ffmpeg",
        Ok(false),
        "/imgs",
        true,
        frames(),
        Some("/out".to_string()),
        true,
        "out",
        4,
        Codec::H264,
    );
    assert_eq!(custom_message(r), "/bin/ffmpeg does not exist");
}

#[test]
fn build_config_rejects_an_existing_engine_path_without_file_name() {
    let r = build_config(
        "/",
        Ok(true),
        "/imgs",
        true,
        frames(),
        Some("/out".to_string()),
        true,
        "out",
        4,
        Codec::H264,
    );
    assert_eq!(custom_message(r), "File Name is not \"ffmpeg\"");
}

#[test]
fn build_config_rejects_an_engine_of_another_name() {
    let r = build_config(
        "/bin/avconv",
        Ok(true),
        "/imgs",
        false,
        frames(),
        Some("/out".to_string()),
        true,
        "out",
        4,
        Codec::H264,
    );
    assert_eq!(custom_message(r), "File Name is not \"ffmpeg\"");
}

#[test]
fn build_config_rejects_an_empty_directory() {
    let r = build_config(
        "/bin/ffmpeg",
        Ok(true),
        "/imgs",
        true,
        Ok(Vec::new()),
        Some("/out".to_string()),
        true,
        "out",
        4,
        Codec::H264,
    );
    assert_eq!(custom_message(r), "Empty Images Folder");
}

#[test]
fn build_config_rejects_a_directory_without_extensions() {
    let r = build_config(
        "/bin/ffmpeg",
        Ok(true),
        "/imgs",
        true,
        Ok(strings(&["/imgs/README", "/imgs/.gitignore"])),
        Some("/out".to_string()),
        true,
        "out",
        4,
        Codec::H264,
    );
    assert_eq!(custom_message(r), "Empty Images Folder");
}

#[test]
fn build_config_rejects_what_is_no_directory() {
    let r = build_config(
        "/bin/ffmpeg",
        Ok(true),
        "/imgs/a.png",
        false,
        Ok(Vec::new()),
        None,
        true,
        "out",
        4,
        Codec::H264,
    );
    assert_eq!(custom_message(r), "/imgs/a.png must be a directory");
}

#[test]
fn config_default_is_empty_and_unset() {
    let mut config = Config::default();
    assert_eq!(config.ffmpeg_path(), "");
    assert_eq!(config.images_path(), "");
    assert_eq!(config.output_path(), "");
    assert_eq!(config.frame_rate(), 0);
    assert_eq!(*config.codec(), Codec::Unset);
}

#[test]
fn set_codec_changes_only_the_codec() {
    let mut config = Config::from_parts(
        "/bin/ffmpeg".to_string(),
        "/imgs/*.png".to_string(),
        "/out/v".to_string(),
        30,
        Codec::H264,
    );
    config.set_codec(Codec::ProRes);
    assert_eq!(*config.codec(), Codec::ProRes);
    assert_eq!(config.ffmpeg_path(), "/bin/ffmpeg");
    assert_eq!(config.images_path(), "/imgs/*.png");
    assert_eq!(config.output_path(), "/out/v");
    assert_eq!(config.frame_rate(), 30);
}

#[test]
fn config_survives_being_taken_apart_and_rebuilt() {
    let mut config = Config::from_parts(
        "/bin/ffmpeg".to_string(),
        "/imgs/*.png".to_string(),
        "/out/v\u{e9}".to_string(),
        4294967295,
        Codec::ProRes,
    );
    let codec = *config.codec();
    let mut again = Config::from_parts(
        config.ffmpeg_path().to_string(),
        config.images_path().to_string(),
        config.output_path().to_string(),
        config.frame_rate(),
        codec,
    );
    assert_eq!(again.ffmpeg_path(), config.ffmpeg_path());
    assert_eq!(again.images_path(), config.images_path());
    assert_eq!(again.output_path(), config.output_path());
    assert_eq!(again.frame_rate(), config.frame_rate());
    assert_eq!(*again.codec(), codec);
    assert_eq!(*config.codec(), Codec::ProRes);
}
