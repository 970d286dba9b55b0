use vstd::prelude::*;

verus! {

/// Nanoseconds in one second.
pub const NANOS_PER_SEC: u32 = 1_000_000_000;

/// An instant: whole seconds since the Unix epoch, and the nanoseconds past them.
#[derive(Clone, Copy, Debug, PartialEq, Eq)]
pub struct PostTime {
    pub secs: i64,
    pub nanos: u32,
}

impl PostTime {
    /// The nanoseconds stay under one second, and the next whole second fits in an `i64`.
    pub open spec fn wf(self) -> bool {
        self.nanos < NANOS_PER_SEC && self.secs < i64::MAX
    }

    /// The instant counted in nanoseconds since the epoch.
    pub open spec fn instant(self) -> int {
        self.secs * NANOS_PER_SEC + self.nanos
    }
}

/// The account that wrote a post.
#[derive(Clone, Debug)]
pub struct Author {
    pub did: String,
    pub handle: String,
    pub display_name: Option<String>,
    pub avatar: Option<String>,
}

/// One post of the timeline, as the social-graph service returned it.
#[derive(Clone, Debug)]
pub struct FeedPost {
    /// The canonical `at://` address of the post.
    pub uri: String,
    pub author: Author,
    pub text: String,
    /// The creation time of the record; `None` where the record could not be read.
    pub created_at: Option<PostTime>,
    /// The full-size addresses of the post's embedded images, in order.
    pub images: Vec<String>,
}

/// A post's creation time, where the record holds a usable one.
pub open spec fn post_time(p: FeedPost) -> Option<PostTime> {
    match p.created_at {
        Some(t) => if t.wf() { Some(t) } else { None },
        None => None,
    }
}

} // verus!
