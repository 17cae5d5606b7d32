//! Posts, and video guides that carry a post: both can be viewed as a post.
use vstd::prelude::*;

verus! {

/// A published text.
#[derive(Debug)]
pub struct Post {
    pub title: String,
    pub author: String,
    pub content: String,
    pub published_at: Option<i32>,
}

/// One video of a guide.
#[derive(Debug)]
pub struct Video;

/// A post together with its videos.
#[derive(Debug)]
pub struct VideoGuide {
    pub post: Post,
    pub videos: Vec<Video>,
}

impl Post {
    /// A post with empty texts and no publication time.
    pub open spec fn is_blank(&self) -> bool {
        &&& self.title@.len() == 0
        &&& self.author@.len() == 0
        &&& self.content@.len() == 0
        &&& self.published_at is None
    }
}

impl VideoGuide {
    /// A guide with a blank post and no videos.
    pub open spec fn is_blank(&self) -> bool {
        self.post.is_blank() && self.videos@.len() == 0
    }
}

impl Default for Post {
    fn default() -> (r: Post)
        ensures
            r.is_blank(),
    {
        Post {
            title: String::new(),
            author: String::new(),
            content: String::new(),
            published_at: None,
        }
    }
}

impl Default for VideoGuide {
    fn default() -> (r: VideoGuide)
        ensures
            r.is_blank(),
    {
        VideoGuide { post: Post::default(), videos: Vec::new() }
    }
}

impl AsRef<Post> for Post {
    fn as_ref(&self) -> (r: &Post)
        ensures
            r == self,
    {
        self
    }
}

impl AsRef<Post> for VideoGuide {
    fn as_ref(&self) -> (r: &Post)
        ensures
            r == &self.post,
    {
        &self.post
    }
}

/// The post stored under `id`; no store is attached, so it is blank.
pub fn fetch_post_with_id<T>(_id: T) -> (r: Post) where T: Into<String>
    ensures
        r.is_blank(),
{
    Post::default()
}

/// The video guide stored under `id`; no store is attached, so it is blank.
pub fn fetch_video_with_id<T>(_id: T) -> (r: VideoGuide) where T: Into<String>
    ensures
        r.is_blank(),
{
    VideoGuide::default()
}

/// Fetches the post and the video guide with id `"123"`, the two items to be
/// announced.
pub fn run() -> (r: (Post, VideoGuide))
    ensures
        r.0.is_blank(),
        r.1.is_blank(),
{
    let post = fetch_post_with_id("123");
    let video_guide = fetch_video_with_id("123");
    (post, video_guide)
}

} // verus!
