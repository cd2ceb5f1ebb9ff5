//! HTML rendering of the store.
//!
//! Every renderer appends to a caller-supplied `String`, and its contract
//! gives the appended text exactly, as a concatenation of the template
//! fragments below and the rendered data.

use vstd::prelude::*;
use vstd::string::*;

use crate::store::{
    comments_list, dislikers_list, likers_list, posts_list, Post, State,
};

verus! {

/// The page header every rendered page opens with.
pub const HEADER: &'static str = "<!DOCTYPE html>
    <html lang=\"ko\">
    <head>
    \t<meta http-equiv=\"Content-Type\" content=\"text/html; charset=utf-8\" />
    \t<meta name=\"description\" content=\"\" />
    \t<meta name=\"author\" content=\"\" />
    \t<meta name=\"viewport\" content=\"user-scalable=no, initial-scale=1.0, maximum-scale=1.0, minimum-scale=1.0, width=device-width\" />
    \t<title></title>
    \t<link href=\"css/style.css\" rel=\"stylesheet\" />
    </head>
    <body>
        <h1>Social</h1>";

/// The page footer every rendered page closes with.
pub const FOOTER: &'static str = "</body></html>";

pub const PV_TITLE: &'static str = "
                <h2>Post by @";

pub const PV_CONTENT: &'static str = "</h2>
                <h4>";

pub const PV_LIKED: &'static str = "</h4>
                <p>Liked by ";

pub const PV_DISLIKED: &'static str = "</p>
                <p>Disliked by ";

pub const PV_COMMENTS: &'static str = "</p>
                <h4>Comments</h4>
                <ul>
                    ";

pub const PV_COMMENT_FORM: &'static str = "
                    <li>
                        <form action=\"/add-comment\" method=\"GET\">
                            <input hidden name=\"post_username\" value=\"";

pub const PV_COMMENT_ID_FIELD: &'static str = "\"/>
                            <input hidden name=\"post_id\" value=\"";

pub const PV_LIKE_FORM: &'static str = "\"/>
                            <input name=\"username\" placeholder=\"Username\"/>
                            <input name=\"comment\" placeholder=\"Your Comment\"/>
                            <input type=\"submit\" value=\"Add Comment\"/>
                        </form>
                    </li>
                </ul>

                <form action=\"/like\" method=\"GET\">
                    <input hidden name=\"post_username\" value=\"";

pub const PV_ID_FIELD: &'static str = "\"/>
                    <input hidden name=\"post_id\" value=\"";

pub const PV_DISLIKE_FORM: &'static str = "\"/>
                    <input name=\"username\" placeholder=\"Username\"/>
                    <input type=\"submit\" value=\"Like\"/>
                </form>
                <form action=\"/dislike\" method=\"GET\">
                    <input hidden name=\"post_username\" value=\"";

pub const PV_UNLIKE_FORM: &'static str = "\"/>
                    <input name=\"username\" placeholder=\"Username\"/>
                    <input type=\"submit\" value=\"Dislike\"/>
                </form>
                <form action=\"/unlike\" method=\"GET\">
                    <input hidden name=\"post_username\" value=\"";

pub const PV_END: &'static str = "\"/>
                    <input name=\"username\" placeholder=\"Username\"/>
                    <input type=\"submit\" value=\"Unlike\"/>
                </form>
                <h5><a href=\"/feed\">Back to Feed</h5>
            ";

pub const FEED_DIV_OPEN: &'static str = "<div id=\"posts\" style=\"border: solid 1px black;\">";

pub const FEED_DIV_CLOSE: &'static str = "</div>";

pub const FEED_ANCHOR_OPEN: &'static str = "<a href=\"/post/";

pub const FEED_ANCHOR_SLASH: &'static str = "/";

pub const FEED_ANCHOR_MID: &'static str = "\"><div>";

pub const FEED_ANCHOR_CLOSE: &'static str = "</div></a>";

// ---------------------------------------------------------------------------
// Decimal rendering of post identifiers.
// ---------------------------------------------------------------------------

/// The decimal digit `d` (`0 <= d <= 9`) as a character.
pub open spec fn dec_digit(d: int) -> char {
    if d == 0 {
        '0'
    } else if d == 1 {
        '1'
    } else if d == 2 {
        '2'
    } else if d == 3 {
        '3'
    } else if d == 4 {
        '4'
    } else if d == 5 {
        '5'
    } else if d == 6 {
        '6'
    } else if d == 7 {
        '7'
    } else if d == 8 {
        '8'
    } else {
        '9'
    }
}

/// The usual decimal rendering of `n >= 0`: no sign, no leading zero except
/// for zero itself.
pub open spec fn dec_str(n: int) -> Seq<char>
    decreases n,
{
    if n < 10 {
        seq![dec_digit(n)]
    } else {
        dec_str(n / 10) + seq![dec_digit(n % 10)]
    }
}

/// Render `n` in decimal.
pub fn u64_to_string(n: u64) -> (r: String)
    ensures
        r@ == dec_str(n as int),
    decreases n,
{
    let d = n % 10;
    let digit: &str;
    if d == 0 {
        digit = "0";
        proof {
            reveal_strlit("0");
            assert(digit@ =~= seq![dec_digit(d as int)]);
        }
    } else if d == 1 {
        digit = "1";
        proof {
            reveal_strlit("1");
            assert(digit@ =~= seq![dec_digit(d as int)]);
        }
    } else if d == 2 {
        digit = "2";
        proof {
            reveal_strlit("2");
            assert(digit@ =~= seq![dec_digit(d as int)]);
        }
    } else if d == 3 {
        digit = "3";
        proof {
            reveal_strlit("3");
            assert(digit@ =~= seq![dec_digit(d as int)]);
        }
    } else if d == 4 {
        digit = "4";
        proof {
            reveal_strlit("4");
            assert(digit@ =~= seq![dec_digit(d as int)]);
        }
    } else if d == 5 {
        digit = "5";
        proof {
            reveal_strlit("5");
            assert(digit@ =~= seq![dec_digit(d as int)]);
        }
    } else if d == 6 {
        digit = "6";
        proof {
            reveal_strlit("6");
            assert(digit@ =~= seq![dec_digit(d as int)]);
        }
    } else if d == 7 {
        digit = "7";
        proof {
            reveal_strlit("7");
            assert(digit@ =~= seq![dec_digit(d as int)]);
        }
    } else if d == 8 {
        digit = "8";
        proof {
            reveal_strlit("8");
            assert(digit@ =~= seq![dec_digit(d as int)]);
        }
    } else {
        digit = "9";
        proof {
            reveal_strlit("9");
            assert(digit@ =~= seq![dec_digit(d as int)]);
        }
    }
    if n < 10 {
        let r = digit.to_owned();
        proof {
            assert(r@ =~= dec_str(n as int));
        }
        r
    } else {
        let mut r = u64_to_string(n / 10);
        r.append(digit);
        proof {
            assert(r@ =~= dec_str(n as int));
        }
        r
    }
}

/// The path of the page for post `post_id` by `username`, as the redirects
/// after posting, commenting and reacting use it.
pub fn post_path(username: &str, post_id: u64) -> (r: String)
    ensures
        r@ == "/post/"@ + username@ + "/"@ + dec_str(post_id as int),
{
    let mut r = String::from_str("/post/");
    r.append(username);
    r.append("/");
    let id_str = u64_to_string(post_id);
    r.append(id_str.as_str());
    proof {
        assert(r@ =~= "/post/"@ + username@ + "/"@ + dec_str(post_id as int));
    }
    r
}

// ---------------------------------------------------------------------------
// Rendering the pieces of a post.
// ---------------------------------------------------------------------------

/// Each name in `names`, quoted and preceded by a space, in order.
pub open spec fn quoted_names_text(names: Seq<Seq<char>>) -> Seq<char>
    decreases names.len(),
{
    if names.len() == 0 {
        Seq::empty()
    } else {
        quoted_names_text(names.drop_last()) + " \""@ + names.last() + "\""@
    }
}

/// Render a list of usernames as the feed shows likers and dislikers.
fn quoted_names(names: &Vec<String>) -> (r: String)
    ensures
        r@ == quoted_names_text(names.deep_view()),
{
    let mut r = String::new();
    let mut i: usize = 0;
    while i < names.len()
        invariant
            i <= names@.len(),
            r@ == quoted_names_text(names.deep_view().take(i as int)),
        decreases names@.len() - i,
    {
        r.append(" \"");
        r.append(names[i].as_str());
        r.append("\"");
        proof {
            assert(names.deep_view().take(i + 1).drop_last() =~= names.deep_view().take(i as int));
            assert(names.deep_view().take(i + 1).last() == names.deep_view()[i as int]);
            assert(r@ =~= quoted_names_text(names.deep_view().take(i + 1)));
        }
        i += 1;
    }
    proof {
        assert(names.deep_view().take(names@.len() as int) =~= names.deep_view());
    }
    r
}

/// Each `(username, comment)` pair as a list item, in order.
pub open spec fn comment_items_text(pairs: Seq<(Seq<char>, Seq<char>)>) -> Seq<char>
    decreases pairs.len(),
{
    if pairs.len() == 0 {
        Seq::empty()
    } else {
        comment_items_text(pairs.drop_last()) + "<li><b>@"@ + pairs.last().0 + " says:</b> "@
            + pairs.last().1 + "</li>"@
    }
}

/// Render the comments of a post as list items.
fn comment_items(pairs: &Vec<(String, String)>) -> (r: String)
    ensures
        r@ == comment_items_text(pairs.deep_view()),
{
    let mut r = String::new();
    let mut i: usize = 0;
    while i < pairs.len()
        invariant
            i <= pairs@.len(),
            r@ == comment_items_text(pairs.deep_view().take(i as int)),
        decreases pairs@.len() - i,
    {
        r.append("<li><b>@");
        r.append(pairs[i].0.as_str());
        r.append(" says:</b> ");
        r.append(pairs[i].1.as_str());
        r.append("</li>");
        proof {
            assert(pairs.deep_view().take(i + 1).drop_last() =~= pairs.deep_view().take(i as int));
            assert(pairs.deep_view().take(i + 1).last() == pairs.deep_view()[i as int]);
            assert(r@ =~= comment_items_text(pairs.deep_view().take(i + 1)));
        }
        i += 1;
    }
    proof {
        assert(pairs.deep_view().take(pairs@.len() as int) =~= pairs.deep_view());
    }
    r
}

/// The full page for one post: header, title, content, likers, dislikers,
/// comments, the comment/like/dislike/unlike forms, footer.
pub open spec fn post_html(post: Post, author: Seq<char>, post_id: u64) -> Seq<char> {
    HEADER@ + PV_TITLE@ + author + PV_CONTENT@ + post.content@ + PV_LIKED@ + quoted_names_text(
        likers_list(post.likes_and_dislikes@),
    ) + PV_DISLIKED@ + quoted_names_text(dislikers_list(post.likes_and_dislikes@)) + PV_COMMENTS@
        + comment_items_text(comments_list(post.comments@)) + PV_COMMENT_FORM@ + author
        + PV_COMMENT_ID_FIELD@ + dec_str(post_id as int) + PV_LIKE_FORM@ + author + PV_ID_FIELD@
        + dec_str(post_id as int) + PV_DISLIKE_FORM@ + author + PV_ID_FIELD@ + dec_str(
        post_id as int,
    ) + PV_UNLIKE_FORM@ + author + PV_ID_FIELD@ + dec_str(post_id as int) + PV_END@ + FOOTER@
}

/// A value that renders itself as HTML, appending to a caller's string.
pub trait ToHtml {
    /// What must hold of the value before it can be rendered.
    spec fn html_pre(&self) -> bool;

    /// The exact text that [`ToHtml::to_html`] appends.
    spec fn html(&self) -> Seq<char>;

    /// Append the value's HTML rendering to `s`.
    fn to_html(&self, s: &mut String)
        requires
            self.html_pre(),
        ensures
            final(s)@ == old(s)@ + self.html(),
    ;
}

/// One post together with its identifier and its author's username.
pub struct PostView<'a> {
    /// The identifier of the post.
    pub post_id: &'a u64,
    /// The username of the post's author.
    pub author: &'a String,
    /// The post itself.
    pub post: &'a Post,
}

impl<'a> ToHtml for PostView<'a> {
    open spec fn html_pre(&self) -> bool {
        true
    }

    open spec fn html(&self) -> Seq<char> {
        post_html(*self.post, self.author@, *self.post_id)
    }

    #[verifier::rlimit(100)]
    fn to_html(&self, s: &mut String) {
        let likers = quoted_names(&self.post.likers());
        let dislikers = quoted_names(&self.post.dislikers());
        let comments = comment_items(&self.post.comments());
        let id_str = u64_to_string(*self.post_id);
        s.append(HEADER);
        s.append(PV_TITLE);
        s.append(self.author.as_str());
        s.append(PV_CONTENT);
        s.append(self.post.content.as_str());
        s.append(PV_LIKED);
        s.append(likers.as_str());
        s.append(PV_DISLIKED);
        s.append(dislikers.as_str());
        s.append(PV_COMMENTS);
        s.append(comments.as_str());
        s.append(PV_COMMENT_FORM);
        s.append(self.author.as_str());
        s.append(PV_COMMENT_ID_FIELD);
        s.append(id_str.as_str());
        s.append(PV_LIKE_FORM);
        s.append(self.author.as_str());
        s.append(PV_ID_FIELD);
        s.append(id_str.as_str());
        s.append(PV_DISLIKE_FORM);
        s.append(self.author.as_str());
        s.append(PV_ID_FIELD);
        s.append(id_str.as_str());
        s.append(PV_UNLIKE_FORM);
        s.append(self.author.as_str());
        s.append(PV_ID_FIELD);
        s.append(id_str.as_str());
        s.append(PV_END);
        s.append(FOOTER);
        proof {
            assert(s@ =~= old(s)@ + self.html());
        }
    }
}

// ---------------------------------------------------------------------------
// Rendering the feed.
// ---------------------------------------------------------------------------

/// The feed entry for one `(username, post identifier)` pair: an anchor to
/// the post's page wrapping the post's own rendering.
pub open spec fn feed_entry_html(st: State, p: (Seq<char>, u64)) -> Seq<char> {
    FEED_ANCHOR_OPEN@ + p.0 + FEED_ANCHOR_SLASH@ + dec_str(p.1 as int) + FEED_ANCHOR_MID@
        + post_html(st.posts@[p.1 as int], p.0, p.1) + FEED_ANCHOR_CLOSE@
}

/// The feed entries for `pairs`, in order.
pub open spec fn feed_entries_html(st: State, pairs: Seq<(Seq<char>, u64)>) -> Seq<char>
    decreases pairs.len(),
{
    if pairs.len() == 0 {
        Seq::empty()
    } else {
        feed_entries_html(st, pairs.drop_last()) + feed_entry_html(st, pairs.last())
    }
}

impl ToHtml for State {
    open spec fn html_pre(&self) -> bool {
        self.wf()
    }

    /// The feed page: header, one entry per post, footer.
    open spec fn html(&self) -> Seq<char> {
        HEADER@ + FEED_DIV_OPEN@ + feed_entries_html(*self, posts_list(self.users@))
            + FEED_DIV_CLOSE@ + FOOTER@
    }

    #[verifier::rlimit(100)]
    fn to_html(&self, s: &mut String) {
        proof {
            self.lemma_posts_list_complete();
        }
        let pairs = self.posts();
        let mut body = String::from_str(FEED_DIV_OPEN);
        let mut i: usize = 0;
        while i < pairs.len()
            invariant
                self.wf(),
                i <= pairs@.len(),
                pairs.deep_view() == posts_list(self.users@),
                forall|k: int|
                    0 <= k < pairs.deep_view().len() ==> self@.posts.contains_key(
                        (#[trigger] pairs.deep_view()[k]).1,
                    ),
                body@ == FEED_DIV_OPEN@ + feed_entries_html(
                    *self,
                    pairs.deep_view().take(i as int),
                ),
            decreases pairs@.len() - i,
        {
            let ghost gpair = pairs.deep_view()[i as int];
            let id = pairs[i].1;
            let id_str = u64_to_string(id);
            body.append(FEED_ANCHOR_OPEN);
            body.append(pairs[i].0.as_str());
            body.append(FEED_ANCHOR_SLASH);
            body.append(id_str.as_str());
            body.append(FEED_ANCHOR_MID);
            match self.get_post(&id) {
                Some(post) => {
                    let view = PostView { post_id: &id, author: &pairs[i].0, post };
                    view.to_html(&mut body);
                },
                None => {
                    // Unreachable: every pair listed by `posts` names a
                    // stored post.
                    proof {
                        assert(false);
                    }
                },
            }
            body.append(FEED_ANCHOR_CLOSE);
            proof {
                assert(pairs.deep_view().take(i + 1).drop_last() =~= pairs.deep_view().take(
                    i as int,
                ));
                assert(pairs.deep_view().take(i + 1).last() == gpair);
                assert(body@ =~= FEED_DIV_OPEN@ + feed_entries_html(
                    *self,
                    pairs.deep_view().take(i + 1),
                ));
            }
            i += 1;
        }
        proof {
            assert(pairs.deep_view().take(pairs@.len() as int) =~= pairs.deep_view());
        }
        s.append(HEADER);
        s.append(body.as_str());
        s.append(FEED_DIV_CLOSE);
        s.append(FOOTER);
        proof {
            assert(s@ =~= old(s)@ + self.html());
        }
    }
}

} // verus!
