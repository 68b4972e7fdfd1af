use qz::mime::filename_to_mime;
use qz::static_files::{StaticDir, StaticFile};
use qz::status::StatusCode;
use qz::Uri;

#[test]
fn static_dir_resolves_a_file_below_the_mount() {
    let dir = StaticDir::mount(b"./tests/assets", b"/assets");
    let path = dir.find_file(&Uri::new(b"/assets/index.html")).unwrap();
    assert_eq!(b"./tests/assets/index.html".to_vec(), path);
    assert_eq!(b"text/html".to_vec(), filename_to_mime(&path));
}

#[test]
fn static_dir_rejects_traversal() {
    let dir = StaticDir::mount(b"./tests/assets", b"/assets");
    let r = dir.find_file(&Uri::new(b"/assets/../../secret.txt"));
    assert_eq!(Err(StatusCode::NotFound), r);
}

#[test]
fn static_dir_rejects_other_prefixes() {
    let dir = StaticDir::mount(b"./tests/assets", b"/assets");
    assert_eq!(
        Err(StatusCode::NotFound),
        dir.find_file(&Uri::new(b"/public/index.html"))
    );
}

#[test]
fn static_dir_allows_returning_into_the_mount() {
    let dir = StaticDir::mount(b"./tests/assets", b"/assets");
    let path = dir.find_file(&Uri::new(b"/assets/sub/../index.html")).unwrap();
    assert_eq!(b"./tests/assets/index.html".to_vec(), path);
}

#[test]
fn static_file_keeps_path_and_mime() {
    let file = StaticFile::mount(b"./tests/index.css");
    assert_eq!(b"./tests/index.css".to_vec(), *file.path());
    assert_eq!(b"text/css".to_vec(), file.mime_type());
}

#[test]
fn mime_by_extension() {
    assert_eq!(b"text/plain".to_vec(), filename_to_mime(b"notes.txt"));
    assert_eq!(b"text/javascript".to_vec(), filename_to_mime(b"a/b/app.js"));
    assert_eq!(b"image/png".to_vec(), filename_to_mime(b"logo.png"));
    assert_eq!(b"image/jpg".to_vec(), filename_to_mime(b"photo.jpg"));
    assert_eq!(b"application/octet-stream".to_vec(), filename_to_mime(b"Makefile"));
    assert_eq!(b"application/octet-stream".to_vec(), filename_to_mime(b"dir/.txt"));
}
