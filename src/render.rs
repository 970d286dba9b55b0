use vstd::prelude::*;
use crate::post::{FeedPost, PostTime};

verus! {

/// The characters that carry meaning in the chat platform's markup.
pub open spec fn is_markup_char(c: char) -> bool {
    c == '*' || c == '_' || c == '>' || c == '`' || c == '[' || c == '-' || c == '#'
}

/// The text with a backslash put before every markup character.
pub open spec fn escaped(s: Seq<char>) -> Seq<char>
    decreases s.len(),
{
    if s.len() == 0 {
        Seq::empty()
    } else {
        let head = if is_markup_char(s[0]) { seq!['\\', s[0]] } else { seq![s[0]] };
        head + escaped(s.drop_first())
    }
}

/// Relies on `String::push`: the character is appended at the end.
#[verifier::external_body]
pub(crate) fn push_char(s: &mut String, c: char)
    ensures
        final(s)@ == old(s)@.push(c),
{
    s.push(c)
}

/// Escapes the markup characters of a post's text with a backslash.
pub fn escape_markdown(s: &str) -> (r: String)
    ensures
        r@ == escaped(s@),
{
    let n = s.unicode_len();
    let mut res = String::new();
    let mut i: usize = 0;
    proof {
        assert(s@.subrange(0, n as int) =~= s@);
        assert(res@ + escaped(s@) =~= escaped(s@));
    }
    while i < n
        invariant
            n == s@.len(),
            i <= n,
            res@ + escaped(s@.subrange(i as int, n as int)) == escaped(s@),
        decreases n - i,
    {
        let c = s.get_char(i);
        let ghost before = res@;
        let ghost rest = s@.subrange(i as int, n as int);
        proof {
            assert(rest.drop_first() =~= s@.subrange(i + 1, n as int));
            assert(rest[0] == c);
        }
        if c == '*' || c == '_' || c == '>' || c == '`' || c == '[' || c == '-' || c == '#' {
            push_char(&mut res, '\\');
        }
        push_char(&mut res, c);
        proof {
            let head = if is_markup_char(c) { seq!['\\', c] } else { seq![c] };
            assert(res@ =~= before + head);
            assert(escaped(rest) == head + escaped(rest.drop_first()));
            assert(res@ + escaped(rest.drop_first()) =~= before + escaped(rest));
        }
        i = i + 1;
    }
    proof {
        assert(s@.subrange(n as int, n as int) =~= Seq::<char>::empty());
        assert(res@ + Seq::<char>::empty() =~= res@);
    }
    res
}

/// The address prefix of a post record written by `did`.
pub open spec fn post_uri_prefix(did: Seq<char>) -> Seq<char> {
    "at://"@ + did + "/app.bsky.feed.post/"@
}

/// The record key of a post, where `uri` is a post record of `did`.
pub open spec fn record_key_of(uri: Seq<char>, did: Seq<char>) -> Option<Seq<char>> {
    let p = post_uri_prefix(did);
    if p.is_prefix_of(uri) {
        Some(uri.subrange(p.len() as int, uri.len() as int))
    } else {
        None
    }
}

/// The web address of an account's profile.
pub open spec fn profile_url(handle: Seq<char>) -> Seq<char> {
    "https://bsky.app/profile/"@ + handle
}

/// The web address of a post.
pub open spec fn post_url(handle: Seq<char>, rkey: Seq<char>) -> Seq<char> {
    profile_url(handle) + "/post/"@ + rkey
}

/// Returns the record key of a post at `uri`, or `None` where `uri` is not a post
/// record of `author_did`.
pub fn extract_rkey(uri: &str, author_did: &str) -> (r: Option<String>)
    ensures
        r is Some <==> record_key_of(uri@, author_did@) is Some,
        r is Some ==> r->0@ == record_key_of(uri@, author_did@)->0,
{
    let mut prefix = String::from_str("at://");
    prefix.append(author_did);
    prefix.append("/app.bsky.feed.post/");
    let p: &str = prefix.as_str();
    let plen = p.unicode_len();
    let n = uri.unicode_len();
    if plen > n {
        return None;
    }
    let mut i: usize = 0;
    while i < plen
        invariant
            p@ == post_uri_prefix(author_did@),
            plen == p@.len(),
            n == uri@.len(),
            plen <= n,
            i <= plen,
            forall|j: int| 0 <= j < i ==> p@[j] == uri@[j],
        decreases plen - i,
    {
        if p.get_char(i) != uri.get_char(i) {
            return None;
        }
        i = i + 1;
    }
    Some(String::from_str(uri.substring_char(plen, n)))
}

/// What a channel is sent about one post.
#[derive(Clone, Debug)]
pub struct Notification {
    /// The plain message text: the post's address in angle brackets.
    pub content: String,
    pub post_url: String,
    pub author_name: String,
    pub author_url: String,
    pub author_icon: Option<String>,
    /// The post's text with its markup characters escaped.
    pub description: String,
    pub timestamp: Option<PostTime>,
    /// The first image, shown as the rich preview.
    pub image: Option<String>,
    /// The remaining images, each sent as a further embed.
    pub extra_images: Vec<String>,
}

/// How an author is named: the display name with the handle, or the handle alone.
pub open spec fn author_label(display_name: Option<String>, handle: Seq<char>) -> Seq<char> {
    match display_name {
        Some(name) => name@ + " ("@ + handle + ")"@,
        None => handle,
    }
}

/// The notification that `m` is for post `p`, whose record key is `rkey`.
pub open spec fn renders(p: FeedPost, rkey: Seq<char>, m: Notification) -> bool {
    let handle = p.author.handle@;
    let url = post_url(handle, rkey);
    &&& m.post_url@ == url
    &&& m.content@ == "<"@ + url + ">"@
    &&& m.author_name@ == author_label(p.author.display_name, handle)
    &&& m.author_url@ == profile_url(handle)
    &&& m.author_icon == p.author.avatar
    &&& m.description@ == escaped(p.text@)
    &&& m.timestamp == p.created_at
    &&& m.image == (if p.images@.len() > 0 { Some(p.images@[0]) } else { None::<String> })
    &&& m.extra_images@ == (if p.images@.len() > 0 { p.images@.drop_first() } else { Seq::empty() })
}

/// Whether a notification can be built for `p`: its address is a post record of its author.
pub open spec fn renderable(p: FeedPost) -> bool {
    record_key_of(p.uri@, p.author.did@) is Some
}

/// Builds the notification for a post, or `None` where the post's address is not
/// a post record of its author.
pub fn make_message(post: &FeedPost) -> (r: Option<Notification>)
    ensures
        r is Some <==> renderable(*post),
        r is Some ==> renders(*post, record_key_of(post.uri@, post.author.did@)->0, r->0),
{
    let rkey = match extract_rkey(post.uri.as_str(), post.author.did.as_str()) {
        Some(k) => k,
        None => return None,
    };
    let handle: &str = post.author.handle.as_str();
    let mut author_url = String::from_str("https://bsky.app/profile/");
    author_url.append(handle);
    let mut url = author_url.clone();
    url.append("/post/");
    url.append(rkey.as_str());
    let mut content = String::from_str("<");
    content.append(url.as_str());
    content.append(">");
    let author_name = match &post.author.display_name {
        Some(name) => {
            let mut label = name.clone();
            label.append(" (");
            label.append(handle);
            label.append(")");
            label
        },
        None => String::from_str(handle),
    };
    let author_icon = match &post.author.avatar {
        Some(a) => Some(a.clone()),
        None => None,
    };
    let n = post.images.len();
    let mut image: Option<String> = None;
    let mut extra_images: Vec<String> = Vec::new();
    if n > 0 {
        image = Some(post.images[0].clone());
        let mut i: usize = 1;
        while i < n
            invariant
                n == post.images@.len(),
                1 <= i <= n,
                extra_images@ == post.images@.subrange(1, i as int),
            decreases n - i,
        {
            extra_images.push(post.images[i].clone());
            proof {
                assert(extra_images@ =~= post.images@.subrange(1, i + 1));
            }
            i = i + 1;
        }
        proof {
            assert(post.images@.drop_first() =~= post.images@.subrange(1, n as int));
        }
    }
    proof {
        assert(extra_images@ =~= (if post.images@.len() > 0 { post.images@.drop_first() } else { Seq::empty() }));
    }
    Some(Notification {
        content,
        post_url: url,
        author_name,
        author_url,
        author_icon,
        description: escape_markdown(post.text.as_str()),
        timestamp: post.created_at,
        image,
        extra_images,
    })
}

} // verus!
