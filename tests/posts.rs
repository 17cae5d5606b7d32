use expr_interp::post::{fetch_post_with_id, fetch_video_with_id, run, Post, VideoGuide};

fn is_blank(p: &Post) -> bool {
    p.title.is_empty() && p.author.is_empty() && p.content.is_empty() && p.published_at.is_none()
}

#[test]
fn fetched_items_are_blank() {
    let p = fetch_post_with_id("123");
    assert!(is_blank(&p));
    let g = fetch_video_with_id(String::from("123"));
    assert!(is_blank(&g.post));
    assert!(g.videos.is_empty());
}

#[test]
fn both_items_view_as_posts() {
    let (p, g): (Post, VideoGuide) = run();
    let a: &Post = p.as_ref();
    let b: &Post = g.as_ref();
    assert!(is_blank(a));
    assert!(is_blank(b));
    assert!(std::ptr::eq(b, &g.post));
}
