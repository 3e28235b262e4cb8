//! Posts and authors of the blog, and what its pages show of them: the
//! routes to a post and to a profile, the navigation bar for the current
//! user, the post list, and the post id read back from a route.

use vstd::prelude::*;

use crate::auth;
use crate::numfmt::{decimal, decimal_string};
use crate::prompt::{parse_u32, parse_u32_str};

verus! {

/// A row of the `posts` table.
#[derive(Clone, Debug)]
pub struct Post {
    pub id: u32,
    pub user_id: u32,
    pub series_id: u32,
    pub title: String,
    pub tagline: String,
    pub content: String,
    pub created_at: String,
    pub updated_at: String,
    pub draft_saved: bool,
    pub posted: bool,
}

/// A row of the `users` table, as the pages show authors.
#[derive(Clone, Debug)]
pub struct User {
    pub id: u32,
    pub first_name: String,
    pub last_name: String,
    pub username: String,
    pub password_hash: String,
    pub created_at: String,
    pub updated_at: String,
}

/// The route of the page that shows post `id`: `/post/<id>`.
pub open spec fn post_path(id: u32) -> Seq<char> {
    seq!['/', 'p', 'o', 's', 't', '/'] + decimal(id as nat)
}

/// The route of the profile page of `username`: `/u/<username>`.
pub open spec fn profile_path(username: Seq<char>) -> Seq<char> {
    seq!['/', 'u', '/'] + username
}

/// The route of the page that shows post `id`.
pub fn post_route(id: u32) -> (r: String)
    ensures
        r@ == post_path(id),
{
    let mut r = "/post/".to_owned();
    proof {
        reveal_strlit("/post/");
    }
    let d = decimal_string(id as u64);
    r = r.concat(d.as_str());
    assert(r@ =~= post_path(id));
    r
}

/// The route of the profile page of `username`.
pub fn profile_route(username: &str) -> (r: String)
    ensures
        r@ == profile_path(username@),
{
    let r = "/u/".to_owned();
    proof {
        reveal_strlit("/u/");
    }
    let r = r.concat(username);
    assert(r@ =~= profile_path(username@));
    r
}

/// An author's first and last name with a space between.
pub fn full_name(user: &User) -> (r: String)
    ensures
        r@ == user.first_name@ + seq![' '] + user.last_name@,
{
    let mut r = user.first_name.clone();
    r.append(" ");
    proof {
        reveal_strlit(" ");
    }
    r.append(user.last_name.as_str());
    r
}

/// The post id in a route parameter: the parameter read as a `u32`, or 0
/// when it is missing or is not a number.
pub open spec fn post_id_of(param: Option<Seq<char>>) -> u32 {
    match param {
        Some(p) => match parse_u32(p) {
            Ok(v) => v,
            Err(_) => 0,
        },
        None => 0,
    }
}

/// Reads the `post_id` route parameter.
pub fn post_id_from_param(param: Option<String>) -> (id: u32)
    ensures
        id == post_id_of(
            match param {
                Some(p) => Some(p@),
                None => None,
            },
        ),
{
    match param {
        Some(p) => match parse_u32_str(p.as_str()) {
            Ok(v) => v,
            Err(_) => 0,
        },
        None => 0,
    }
}

/// The username in the `username` route parameter, empty when it is missing.
pub fn username_from_param(param: Option<String>) -> (name: String)
    ensures
        name@ == match param {
            Some(p) => p@,
            None => Seq::<char>::empty(),
        },
{
    match param {
        Some(p) => p,
        None => String::new(),
    }
}

/// The author id stored with a new draft: the current user's id, or -1
/// when nobody is logged in.
pub fn draft_author_id(user: &Option<auth::User>) -> (id: i64)
    ensures
        id == match user {
            Some(u) => u.id as int,
            None => -1,
        },
{
    match user {
        Some(u) => u.id as i64,
        None => -1,
    }
}

/// An entry of the navigation bar.
#[derive(Clone, Debug)]
pub enum NavItem {
    /// A link with its route and its text.
    Link { href: String, text: String },
    /// A profile picture that links to a route.
    ProfilePicture { href: String },
    /// A line of text.
    Notice { text: String },
}

/// The spec view of a navigation entry: a kind and up to two strings.
pub open spec fn nav_view(item: NavItem) -> (int, Seq<char>, Seq<char>) {
    match item {
        NavItem::Link { href, text } => (0, href@, text@),
        NavItem::ProfilePicture { href } => (1, href@, Seq::empty()),
        NavItem::Notice { text } => (2, Seq::empty(), text@),
    }
}

/// The navigation bar for the current user, as the lookup of that user
/// turned out: an error message, nobody logged in, or a user.
pub open spec fn nav_bar(current: Result<Option<Seq<char>>, Seq<char>>) -> Seq<
    (int, Seq<char>, Seq<char>),
> {
    let signup = (0int, "/signup"@, "Signup"@);
    let login = (0int, "/login"@, "Login"@);
    match current {
        Err(e) => seq![signup, login, (2int, Seq::empty(), "Login error: "@ + e)],
        Ok(None) => seq![signup, login],
        Ok(Some(username)) => seq![(0int, "/settings"@, "Settings"@), (1int, profile_path(username), Seq::empty())],
    }
}

fn link(href: &str, text: &str) -> (item: NavItem)
    ensures
        nav_view(item) == (0int, href@, text@),
{
    NavItem::Link { href: href.to_owned(), text: text.to_owned() }
}

/// The entries of the navigation bar for the current user.
pub fn nav_items(current: &Result<Option<auth::User>, String>) -> (items: Vec<NavItem>)
    ensures
        items@.map_values(|i: NavItem| nav_view(i)) == nav_bar(
            match current {
                Err(e) => Err(e@),
                Ok(None) => Ok(None),
                Ok(Some(u)) => Ok(Some(u.username@)),
            },
        ),
{
    let mut items: Vec<NavItem> = Vec::new();
    match current {
        Err(e) => {
            items.push(link("/signup", "Signup"));
            items.push(link("/login", "Login"));
            let text = "Login error: ".to_owned().concat(e.as_str());
            items.push(NavItem::Notice { text });
        },
        Ok(None) => {
            items.push(link("/signup", "Signup"));
            items.push(link("/login", "Login"));
        },
        Ok(Some(u)) => {
            items.push(link("/settings", "Settings"));
            items.push(NavItem::ProfilePicture { href: profile_route(u.username.as_str()) });
        },
    }
    assert(items@.map_values(|i: NavItem| nav_view(i)) =~= nav_bar(
        match current {
            Err(e) => Err(e@),
            Ok(None) => Ok(None),
            Ok(Some(u)) => Ok(Some(u.username@)),
        },
    ));
    items
}

/// What a card in the post list shows of a post.
#[derive(Clone, Debug)]
pub struct PostCard {
    pub route: String,
    pub title: String,
    pub tagline: String,
    pub author_id: u32,
}

/// The card for `post`: its route, title, tagline and author.
pub fn post_card(post: &Post) -> (card: PostCard)
    ensures
        card.route@ == post_path(post.id),
        card.title@ == post.title@,
        card.tagline@ == post.tagline@,
        card.author_id == post.user_id,
{
    PostCard {
        route: post_route(post.id),
        title: post.title.clone(),
        tagline: post.tagline.clone(),
        author_id: post.user_id,
    }
}

/// What the post list shows.
#[derive(Clone, Debug)]
pub enum PostListView {
    /// The posts could not be loaded: the error text.
    Error { text: String },
    /// There are no posts.
    Empty,
    /// One card per post, in order.
    Cards { cards: Vec<PostCard> },
}

/// What the post list shows for the result of loading the posts.
pub fn post_list_view(posts: &Result<Vec<Post>, String>) -> (v: PostListView)
    ensures
        match (posts, v) {
            (Err(e), PostListView::Error { text }) => text@ == "Server Error: "@ + e@,
            (Ok(ps), PostListView::Empty) => ps@.len() == 0,
            (Ok(ps), PostListView::Cards { cards }) => ps@.len() > 0 && cards@.len() == ps@.len()
                && forall|i: int|
                0 <= i < cards@.len() ==> (#[trigger] cards@[i]).route@ == post_path(ps@[i].id)
                    && cards@[i].title@ == ps@[i].title@ && cards@[i].tagline@ == ps@[i].tagline@
                    && cards@[i].author_id == ps@[i].user_id,
            _ => false,
        },
{
    match posts {
        Err(e) => PostListView::Error { text: "Server Error: ".to_owned().concat(e.as_str()) },
        Ok(ps) => {
            if ps.len() == 0 {
                PostListView::Empty
            } else {
                let mut cards: Vec<PostCard> = Vec::new();
                let mut i: usize = 0;
                while i < ps.len()
                    invariant
                        0 <= i <= ps@.len(),
                        cards@.len() == i,
                        forall|k: int|
                            0 <= k < i ==> (#[trigger] cards@[k]).route@ == post_path(ps@[k].id)
                                && cards@[k].title@ == ps@[k].title@ && cards@[k].tagline@
                                == ps@[k].tagline@ && cards@[k].author_id == ps@[k].user_id,
                    decreases ps@.len() - i,
                {
                    cards.push(post_card(&ps[i]));
                    i = i + 1;
                }
                PostListView::Cards { cards }
            }
        },
    }
}

/// The post page finds the post that a card links to: reading the id back
/// from the route parameter of `/post/<id>` gives `id`.
pub proof fn lemma_post_route_round_trip(id: u32)
    ensures
        post_id_of(Some(decimal(id as nat))) == id,
        post_path(id) == seq!['/', 'p', 'o', 's', 't', '/'] + decimal(id as nat),
{
    crate::prompt::lemma_parse_decimal(id);
}

} // verus!
