use social::html::{post_path, u64_to_string, PostView, ToHtml, FOOTER, HEADER};
use social::store::State;

/// Decimal rendering: exact digits, no sign, no padding.
#[test]
fn decimal_rendering() {
    assert_eq!(u64_to_string(0), "0");
    assert_eq!(u64_to_string(7), "7");
    assert_eq!(u64_to_string(10), "10");
    assert_eq!(u64_to_string(1234567890), "1234567890");
    assert_eq!(u64_to_string(u64::MAX), "18446744073709551615");
}

/// Redirect paths name the author and the post identifier.
#[test]
fn post_path_format() {
    assert_eq!(post_path("alice", 0), "/post/alice/0");
    assert_eq!(post_path("bob", 1234), "/post/bob/1234");
}

/// An empty store renders as a bare feed: header, an empty post list,
/// footer.
#[test]
fn empty_feed_page() {
    let state = State::new();
    let mut page = String::new();
    state.to_html(&mut page);
    let expected = format!(
        "{}<div id=\"posts\" style=\"border: solid 1px black;\">{}{}",
        HEADER, "</div>", FOOTER
    );
    assert_eq!(page, expected);
}

/// A post's page carries its author, content, reactions and comments.
#[test]
fn post_page_contents() {
    let mut state = State::new();
    state.register_user("alice").unwrap();
    let pid = state.create_post("alice", "hello world".to_string()).unwrap();
    {
        let post = state.get_post_mut(&pid).unwrap();
        post.like("bob");
        post.add_comment("carol", "nice".to_string());
    }
    let post = state.get_post(&pid).unwrap();
    let author = "alice".to_string();
    let view = PostView {
        post_id: &pid,
        author: &author,
        post,
    };
    let mut page = String::new();
    view.to_html(&mut page);
    assert!(page.starts_with(HEADER));
    assert!(page.ends_with(FOOTER));
    assert!(page.contains("<h2>Post by @alice</h2>"));
    assert!(page.contains("<h4>hello world</h4>"));
    assert!(page.contains("Liked by  \"bob\""));
    assert!(page.contains("<li><b>@carol says:</b> nice</li>"));
    assert!(page.contains(&format!("value=\"{}\"", pid)));
}

/// The feed page wraps each post in a link to its own page.
#[test]
fn feed_links_to_posts() {
    let mut state = State::new();
    state.register_user("alice").unwrap();
    let pid = state.create_post("alice", "hello".to_string()).unwrap();
    let mut page = String::new();
    state.to_html(&mut page);
    assert!(page.contains(&format!("<a href=\"/post/alice/{}\"><div>", pid)));
    assert!(page.contains("<h4>hello</h4>"));
}
