use prism::auth::session::{KindClaims, SessionKey, TokenKind};
use prism::auth::{AuthPolicy, Authenticator};
use prism::files::list::{Kind, Sort};
use prism::files::path::PathError;
use prism::files_api::{
    disposition, file_name, guard, mime_for, page_limit, path_refusal, plan_for, sort_from, thumb_name, thumb_plan,
    thumbs_suspended,
};

#[test]
fn maps_common_types() {
    assert_eq!(mime_for("a.png"), "image/png");
    assert_eq!(mime_for("clip.mp4"), "video/mp4");
    assert_eq!(mime_for("doc.pdf"), "application/pdf");
    assert_eq!(mime_for("notes.md"), "text/plain; charset=utf-8");
    assert_eq!(mime_for("model.safetensors"), "application/octet-stream");
    assert_eq!(mime_for("noext"), "application/octet-stream");
}

#[test]
fn extension_matching_is_case_insensitive() {
    assert_eq!(mime_for("PHOTO.JPG"), "image/jpeg");
}

#[test]
fn thumbnail_of_a_directory_is_none() {
    assert!(plan_for(Kind::Dir, "/tmp", "/tmp/out.jpg").is_none());
    assert!(thumb_plan("tmp", "/tmp", "/tmp/out.jpg").is_none());
}

#[test]
fn thumbnail_of_an_unsupported_type_is_none() {
    assert!(thumb_plan("notes.md", "/d/notes.md", "/d/out.jpg").is_none());
}

#[test]
fn a_thumbnail_is_made_by_the_program_for_its_kind() {
    let p = thumb_plan("a.mp4", "/d/a.mp4", "/d/out.jpg").unwrap();
    assert!(p.args.contains(&"/d/a.mp4".to_string()));
    assert_eq!(p.program, "ffmpeg");
    assert_eq!(p.args.last().map(|s| s.as_str()), Some("/d/out.jpg"));
    assert!(p.produced.is_empty());
    let p = thumb_plan("a.PDF", "/d/a.PDF", "/d/out.jpg").unwrap();
    assert_eq!(p.program, "pdftoppm");
    assert_eq!(p.produced, vec!["/d/out-1.jpg", "/d/out-01.jpg", "/d/out-001.jpg"]);
    let p = thumb_plan("a.png", "/d/a.png", "/d/out.jpg").unwrap();
    assert_eq!(p.args, vec!["thumbnail", "/d/a.png", "/d/out.jpg[Q=82]", "512"]);
    assert_eq!(thumb_name(255), "00000000000000ff.jpg");
}

#[test]
fn thumbnails_wait_for_better_times() {
    assert!(thumbs_suspended("green").is_none());
    assert!(thumbs_suspended("amber").is_none());
    assert_eq!(thumbs_suspended("red").unwrap().status, 503);
    assert_eq!(thumbs_suspended("black").unwrap().status, 503);
}

#[test]
fn what_is_outside_and_what_is_absent_are_answered_alike() {
    let a = path_refusal(PathError::Escapes);
    let b = path_refusal(PathError::NotFound);
    assert_eq!((a.status, a.error, a.detail), (b.status, b.error, b.detail));
    assert_eq!(path_refusal(PathError::InvalidComponent).status, 404);
    assert_eq!(path_refusal(PathError::UnknownRoot).error, "no_root");
}

#[test]
fn a_listing_is_sorted_and_paged_as_it_is_asked_for() {
    assert_eq!(sort_from(Some("size")), Sort::Size);
    assert_eq!(sort_from(Some("modified")), Sort::Modified);
    assert_eq!(sort_from(Some("other")), Sort::Name);
    assert_eq!(sort_from(None), Sort::Name);
    assert_eq!(page_limit(None), 200);
    assert_eq!(page_limit(Some(10)), 10);
    assert_eq!(page_limit(Some(usize::MAX)), 1000);
}

#[test]
fn a_saved_name_has_no_quotes() {
    assert_eq!(file_name("/d/a b.txt"), "a b.txt");
    assert_eq!(disposition("a\"b.txt"), "attachment; filename=\"ab.txt\"");
}

#[test]
fn files_need_a_session_and_a_root() {
    let key = SessionKey::from_bytes([3u8; 32]);
    let token = key.issue_kind(KindClaims { expires_at: 2000, kind: TokenKind::Session });
    let a = Authenticator::new(key, vec![1u8; 20], AuthPolicy::default());
    let bearer = format!("Bearer {token}");
    assert!(guard(1, &a, Some(&bearer), None, 1000).is_none());
    assert!(guard(0, &a, Some(&bearer), None, 1000).is_some());
    assert_eq!(guard(1, &a, None, None, 1000).unwrap().status, 401);
}
