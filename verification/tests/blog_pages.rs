use bblog::auth;
use bblog::blog::{
    draft_author_id, full_name, nav_items, post_card, post_id_from_param, post_list_view,
    post_route, profile_route, username_from_param, NavItem, Post, PostListView, User,
};

fn post(id: u32, user_id: u32, title: &str) -> Post {
    Post {
        id,
        user_id,
        series_id: 0,
        title: String::from(title),
        tagline: format!("about {title}"),
        content: String::from("body"),
        created_at: String::new(),
        updated_at: String::new(),
        draft_saved: true,
        posted: true,
    }
}

fn session_user(username: &str) -> auth::User {
    auth::User {
        id: 11,
        first_name: String::from("Ada"),
        last_name: String::from("Lovelace"),
        username: String::from(username),
        password_hash: String::new(),
        permissions: Vec::new(),
    }
}

#[test]
fn routes_to_posts_and_profiles() {
    assert_eq!(post_route(42), "/post/42");
    assert_eq!(post_route(0), "/post/0");
    assert_eq!(post_route(u32::MAX), "/post/4294967295");
    assert_eq!(profile_route("ada"), "/u/ada");
}

#[test]
fn post_id_is_read_from_the_route() {
    assert_eq!(post_id_from_param(Some(String::from("17"))), 17);
    assert_eq!(post_id_from_param(Some(String::from("x"))), 0);
    assert_eq!(post_id_from_param(Some(String::from(" 5"))), 0);
    assert_eq!(post_id_from_param(None), 0);
}

#[test]
fn the_route_of_a_post_leads_back_to_it() {
    for id in [0u32, 7, 10, 99, 12345, u32::MAX] {
        let route = post_route(id);
        let param = route.strip_prefix("/post/").unwrap().to_string();
        assert_eq!(post_id_from_param(Some(param)), id);
    }
}

#[test]
fn usernames_and_names() {
    assert_eq!(username_from_param(Some(String::from("ada"))), "ada");
    assert_eq!(username_from_param(None), "");
    let author = User {
        id: 1,
        first_name: String::from("Ada"),
        last_name: String::from("Lovelace"),
        username: String::from("ada"),
        password_hash: String::new(),
        created_at: String::new(),
        updated_at: String::new(),
    };
    assert_eq!(full_name(&author), "Ada Lovelace");
}

#[test]
fn drafts_are_stored_under_the_current_user() {
    assert_eq!(draft_author_id(&Some(session_user("ada"))), 11);
    assert_eq!(draft_author_id(&None), -1);
}

fn describe(items: &[NavItem]) -> Vec<String> {
    items
        .iter()
        .map(|i| match i {
            NavItem::Link { href, text } => format!("link {href} {text}"),
            NavItem::ProfilePicture { href } => format!("picture {href}"),
            NavItem::Notice { text } => format!("notice {text}"),
        })
        .collect()
}

#[test]
fn navigation_bar_follows_the_current_user() {
    assert_eq!(
        describe(&nav_items(&Ok(None))),
        vec!["link /signup Signup", "link /login Login"]
    );
    assert_eq!(
        describe(&nav_items(&Ok(Some(session_user("ada"))))),
        vec!["link /settings Settings", "picture /u/ada"]
    );
    assert_eq!(
        describe(&nav_items(&Err(String::from("boom")))),
        vec!["link /signup Signup", "link /login Login", "notice Login error: boom"]
    );
}

#[test]
fn post_list_shows_cards_or_a_message() {
    match post_list_view(&Ok(vec![])) {
        PostListView::Empty => {}
        _ => panic!("expected the empty message"),
    }
    match post_list_view(&Err(String::from("db down"))) {
        PostListView::Error { text } => assert_eq!(text, "Server Error: db down"),
        _ => panic!("expected an error"),
    }
    match post_list_view(&Ok(vec![post(3, 9, "First"), post(4, 9, "Second")])) {
        PostListView::Cards { cards } => {
            assert_eq!(cards.len(), 2);
            assert_eq!(cards[0].route, "/post/3");
            assert_eq!(cards[1].title, "Second");
            assert_eq!(cards[1].tagline, "about Second");
            assert_eq!(cards[0].author_id, 9);
        }
        _ => panic!("expected cards"),
    }
    let card = post_card(&post(12, 2, "T"));
    assert_eq!(card.route, "/post/12");
}
