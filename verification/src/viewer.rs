//! The viewer of Instagram accounts: which pictures it is served, when a session counts
//! as blocked, and which of its pages are filed as seen.

use vstd::prelude::*;

use crate::headers::FALLBACK_UA;
use crate::ig_library::{IgCaught, IgLibrary};
use crate::net::RequestOptions;
use crate::preview;
use crate::strmap;
use crate::strmap::StrMap;
use crate::text;
use crate::text::{cat2, chars_of, contains, string_of, to_lower, trimmed_start_set};
use crate::textmap;

verus! {

// ---------------------------------------------------------------------------
// Pictures
// ---------------------------------------------------------------------------

/// Whether an address is that of a picture on the site's own servers.
pub open spec fn is_site_picture(url: Seq<char>) -> bool {
    text::holds(url, "cdninstagram.com"@) || text::holds(url, "fbcdn.net"@)
}

/// Tells whether an address is that of a picture on the site's own servers; no other is
/// fetched for the viewer.
pub fn serves_picture(url: &str) -> (r: bool)
    ensures
        r == is_site_picture(url@),
{
    let cs = chars_of(url);
    contains(cs.as_slice(), "cdninstagram.com") || contains(cs.as_slice(), "fbcdn.net")
}

/// The request for a picture: as a browser makes it from the site itself, which the
/// servers insist on.
pub fn picture_options(cookie: Option<String>) -> (r: RequestOptions)
    ensures
        r.cookies == cookie,
        r.byte_range is None,
        strmap::text_values(r.headers@) == Map::<Seq<char>, Seq<char>>::empty().insert(
            "User-Agent"@,
            FALLBACK_UA@,
        ).insert("Referer"@, "https://www.instagram.com/"@),
{
    let mut headers: StrMap<String> = StrMap::new();
    headers.insert("User-Agent".to_string(), FALLBACK_UA.to_string());
    headers.insert("Referer".to_string(), "https://www.instagram.com/".to_string());
    let ghost want = Map::<Seq<char>, Seq<char>>::empty().insert(
        "User-Agent"@,
        FALLBACK_UA@,
    ).insert("Referer"@, "https://www.instagram.com/"@);
    assert(strmap::text_values(headers@) =~= want);
    RequestOptions { headers, cookies: cookie, byte_range: None }
}

/// The content type under which a picture is passed on; nothing where it was not served.
pub fn picture_type(status: u16, content_type: Option<&str>) -> (r: Option<String>)
    ensures
        text::opt(r) == (if preview::is_success(status) {
            match content_type {
                Some(t) => Some(t@),
                None => Some("image/jpeg"@),
            }
        } else {
            None
        }),
{
    if status < 200 || status >= 300 {
        return None;
    }
    match content_type {
        Some(t) => Some(t.to_string()),
        None => Some("image/jpeg".to_string()),
    }
}

// ---------------------------------------------------------------------------
// Accounts
// ---------------------------------------------------------------------------

/// What is shown of an account above its posts.
#[derive(Debug)]
pub struct ProfileHeader {
    pub username: String,
    pub full_name: String,
    pub biography: String,
    pub profile_pic_url: String,
    pub is_private: bool,
    pub is_verified: bool,
    pub external_url: Option<String>,
    pub post_count: u64,
    pub follower_count: u64,
    pub following_count: u64,
    /// Whether the site told all of it.
    pub complete: bool,
}

impl ProfileHeader {
    /// Tells whether the site answered at all: a session that is blocked gets neither
    /// the whole nor a picture.
    pub fn is_answer(&self) -> (r: bool)
        ensures
            r == (self.complete || self.profile_pic_url@.len() > 0),
    {
        self.complete || chars_of(self.profile_pic_url.as_str()).len() > 0
    }

    /// What is shown where every session is blocked: the name alone.
    pub fn name_only(username: String) -> (r: Self)
        ensures
            r.username == username,
            r.full_name@.len() == 0,
            r.biography@.len() == 0,
            r.profile_pic_url@.len() == 0,
            !r.is_private,
            !r.is_verified,
            r.external_url is None,
            r.post_count == 0,
            r.follower_count == 0,
            r.following_count == 0,
            !r.complete,
    {
        ProfileHeader {
            username,
            full_name: String::new(),
            biography: String::new(),
            profile_pic_url: String::new(),
            is_private: false,
            is_verified: false,
            external_url: None,
            post_count: 0,
            follower_count: 0,
            following_count: 0,
            complete: false,
        }
    }
}

/// Whether a cookie carries a session.
pub open spec fn carries_session(cookie: Seq<char>) -> bool {
    text::holds(cookie, "sessionid="@)
}

/// Tells whether a cookie carries a session.
pub fn offers_session(cookie: &str) -> (r: bool)
    ensures
        r == carries_session(cookie@),
{
    let cs = chars_of(cookie);
    contains(cs.as_slice(), "sessionid=")
}

/// Tells whether there is a session among cookies.
pub fn has_session(cookies: &Vec<String>) -> (r: bool)
    ensures
        r == exists|i: int| 0 <= i < cookies@.len() && carries_session(#[trigger] cookies@[i]@),
{
    let mut i: usize = 0;
    while i < cookies.len()
        invariant
            i <= cookies.len(),
            forall|j: int| 0 <= j < i ==> !carries_session(#[trigger] cookies@[j]@),
        decreases cookies.len() - i,
    {
        if offers_session(cookies[i].as_str()) {
            assert(carries_session(cookies@[i as int]@));
            return true;
        }
        i += 1;
    }
    false
}

/// What was seen of an account.
pub fn caught_of<'a>(lib: &'a IgLibrary, username: &str) -> (r: Option<&'a Vec<IgCaught>>)
    ensures
        match r {
            Some(v) => textmap::get(lib.accounts.list(), text::lower(username@)) matches Some(a)
                && *v == a.caught,
            None => textmap::get(lib.accounts.list(), text::lower(username@)) is None,
        },
{
    let cs = chars_of(username);
    let key = string_of(to_lower(cs.as_slice()).as_slice());
    match lib.accounts.get(key.as_str()) {
        Some(a) => Some(&a.caught),
        None => None,
    }
}

// ---------------------------------------------------------------------------
// Pages
// ---------------------------------------------------------------------------

/// Whether an address that is queued is that of a page of the site, which is then also
/// filed as seen.
pub open spec fn is_site_page(url: Seq<char>) -> bool {
    text::holds(url, "instagram.com/"@) && !text::holds(url, "cdninstagram.com"@)
}

/// Tells whether an address that is queued is also filed as seen.
pub fn files_page(url: &str) -> (r: bool)
    ensures
        r == is_site_page(url@),
{
    let cs = chars_of(url);
    contains(cs.as_slice(), "instagram.com/") && !contains(cs.as_slice(), "cdninstagram.com")
}

/// The page of a post.
pub fn post_page(id: &str) -> (r: String)
    ensures
        r@ == "https://www.instagram.com/p/"@ + id@,
{
    cat2("https://www.instagram.com/p/", id)
}

/// The name of an account without the signs in front of it.
pub fn owner_name(owner: &str) -> (r: String)
    ensures
        r@ == text::trim_start_set(owner@, "@"@),
{
    let cs = chars_of(owner);
    string_of(trimmed_start_set(cs.as_slice(), "@"))
}

} // verus!
