use social::store::{State, StoreError};

/// The whole store exercised end to end: registration, duplicate
/// registration, posting, reactions and comments.
#[test]
fn full() {
    let mut state = State::new();

    // no posts have been created
    assert_eq!(state.posts.len(), 0);

    // register a user
    state.register_user("bhavyakukkar").unwrap();

    // attempt to register with existing username (must fail)
    assert!(state.register_user("bhavyakukkar").is_err());

    // register another user
    state.register_user("johndoe").unwrap();

    // make bhavyakukkar create a new post
    let post_id = state
        .create_post("bhavyakukkar", "This is my first post".to_string())
        .unwrap();

    {
        // there is now 1 post
        let posts = state.posts();
        assert!(posts.len() == 1);
        let post_id = posts.get(0).expect("there are no posts").1;
        let post = state.get_post_mut(&post_id).expect("post not found");

        // post content should match
        assert_eq!(post.content, "This is my first post".to_string());

        // make johndoe like the post
        post.like("johndoe");

        // likers should only be johndoe
        let likers: Vec<String> = post.likers();
        assert_eq!(likers, vec!["johndoe"]);

        // there should be no dislikers
        let dislikers: Vec<String> = post.dislikers();
        assert_eq!(dislikers, Vec::<String>::new());

        // make johndoe dislike the post
        post.dislike("johndoe");

        // there should be no likers
        let likers: Vec<String> = post.likers();
        assert_eq!(likers, Vec::<String>::new());

        // dislikers should only be johndoe
        let dislikers: Vec<String> = post.dislikers();
        assert_eq!(dislikers, vec!["johndoe"]);

        // make johndoe make a comment on the post
        post.add_comment("johndoe", "Nice Post!".to_string());

        // there should be a single comment made by johndoe
        let comments = post.comments();
        assert_eq!(
            comments,
            vec![("johndoe".to_string(), "Nice Post!".to_string())]
        );

        // make johndoe make another comment on the post
        post.add_comment("johndoe", "Reading this again...".to_string());

        // there should now be two comments made by johndoe
        let comments = post.comments();
        assert_eq!(
            comments,
            vec![
                ("johndoe".to_string(), "Nice Post!".to_string()),
                ("johndoe".to_string(), "Reading this again...".to_string())
            ]
        );
    }

    // try creating comment from state rather than post
    // this is bhavyakukkar's comment on his own post
    state
        .create_comment(
            post_id,
            "bhavyakukkar",
            "Glad to hear that @johndoe".to_string(),
        )
        .unwrap();
}

/// Registering a username twice fails with `AlreadyRegistered` and leaves
/// the user set as it was.
#[test]
fn duplicate_registration_rejected() {
    let mut state = State::new();
    state.register_user("alice").unwrap();
    let before = state.users.len();
    let err = state.register_user("alice").unwrap_err();
    assert_eq!(err, StoreError::AlreadyRegistered);
    assert_eq!(state.users.len(), before);
}

/// Posting as an unregistered username fails with `UnknownUser` and creates
/// no post.
#[test]
fn unknown_user_cannot_post() {
    let mut state = State::new();
    let err = state
        .create_post("nobody", "hello".to_string())
        .unwrap_err();
    assert_eq!(err, StoreError::UnknownUser);
    assert_eq!(state.posts.len(), 0);
    assert_eq!(state.posts().len(), 0);
}

/// Commenting on a missing post fails with `PostNotFound` and changes
/// nothing.
#[test]
fn comment_on_missing_post_rejected() {
    let mut state = State::new();
    let err = state
        .create_comment(7, "alice", "hi".to_string())
        .unwrap_err();
    assert_eq!(err, StoreError::PostNotFound);
    assert!(state.get_post(&7).is_none());
}

/// Whatever sequence of reactions one user sends, only the last call's
/// effect stands: the user appears among the likers, the dislikers, or
/// neither.
#[test]
fn last_reaction_wins() {
    let mut state = State::new();
    state.register_user("alice").unwrap();
    let pid = state.create_post("alice", "post".to_string()).unwrap();
    let post = state.get_post_mut(&pid).unwrap();

    post.like("bob");
    post.like("bob");
    post.dislike("bob");
    assert_eq!(post.likers(), Vec::<String>::new());
    assert_eq!(post.dislikers(), vec!["bob"]);

    post.unlike("bob");
    assert_eq!(post.likers(), Vec::<String>::new());
    assert_eq!(post.dislikers(), Vec::<String>::new());

    post.dislike("bob");
    post.unlike("bob");
    post.like("bob");
    assert_eq!(post.likers(), vec!["bob"]);
    assert_eq!(post.dislikers(), Vec::<String>::new());

    // withdrawing with no standing reaction is a no-op
    post.unlike("carol");
    assert_eq!(post.likers(), vec!["bob"]);
}

/// Comments accumulate in call order and never overwrite one another.
#[test]
fn comments_accumulate_in_order() {
    let mut state = State::new();
    state.register_user("alice").unwrap();
    let pid = state.create_post("alice", "post".to_string()).unwrap();
    state.create_comment(pid, "carol", "first".to_string()).unwrap();
    state.create_comment(pid, "carol", "second".to_string()).unwrap();
    let post = state.get_post(&pid).unwrap();
    assert_eq!(
        post.comments(),
        vec![
            ("carol".to_string(), "first".to_string()),
            ("carol".to_string(), "second".to_string())
        ]
    );
}

/// After creating three posts across two users, `posts()` lists exactly
/// three pairs, with distinct identifiers, each naming a stored post.
#[test]
fn posts_listing_is_complete() {
    let mut state = State::new();
    state.register_user("alice").unwrap();
    state.register_user("bob").unwrap();
    let p1 = state.create_post("alice", "a1".to_string()).unwrap();
    let p2 = state.create_post("bob", "b1".to_string()).unwrap();
    let p3 = state.create_post("alice", "a2".to_string()).unwrap();
    assert_ne!(p1, p2);
    assert_ne!(p1, p3);
    assert_ne!(p2, p3);

    let pairs = state.posts();
    assert_eq!(pairs.len(), 3);
    for (username, pid) in &pairs {
        let post = state.get_post(pid).expect("listed post must exist");
        let expected_author = if *pid == p2 { "bob" } else { "alice" };
        assert_eq!(username, expected_author);
        assert!(!post.content.is_empty());
    }
    let mut ids: Vec<u64> = pairs.iter().map(|p| p.1).collect();
    ids.sort();
    ids.dedup();
    assert_eq!(ids.len(), 3);
}

/// The end-to-end scenario: register, post, react as another user, comment
/// as a third.
#[test]
fn end_to_end() {
    let mut state = State::new();
    state.register_user("alice").unwrap();
    let p = state.create_post("alice", "hello".to_string()).unwrap();
    assert_eq!(state.get_post(&p).unwrap().content, "hello");

    let post = state.get_post_mut(&p).unwrap();
    post.like("bob");
    assert_eq!(post.likers(), vec!["bob"]);
    assert_eq!(post.dislikers(), Vec::<String>::new());

    post.dislike("bob");
    assert_eq!(post.likers(), Vec::<String>::new());
    assert_eq!(post.dislikers(), vec!["bob"]);

    post.unlike("bob");
    assert_eq!(post.likers(), Vec::<String>::new());
    assert_eq!(post.dislikers(), Vec::<String>::new());

    state.create_comment(p, "carol", "hi".to_string()).unwrap();
    assert_eq!(
        state.get_post(&p).unwrap().comments(),
        vec![("carol".to_string(), "hi".to_string())]
    );
}
