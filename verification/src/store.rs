//! The in-memory store: users, posts, reactions and comments.
//!
//! Data is held in association lists (vectors of key/value pairs with unique
//! keys), and every operation is specified against a mathematical model:
//! [`PostModel`] views a post as two maps, [`StateModel`] views the whole
//! store as a map of users and a map of posts.

use vstd::prelude::*;

verus! {

/// A validation failure reported by a [`State`] operation.
///
/// Every error is detected before any mutation is applied, so a failed
/// operation leaves the store exactly as it was.
#[derive(Debug, Clone, Copy, PartialEq, Eq, Structural)]
pub enum StoreError {
    /// The username handed to [`State::register_user`] is already taken.
    AlreadyRegistered,
    /// The username handed to [`State::create_post`] is not registered.
    UnknownUser,
    /// No post carries the identifier handed to [`State::create_comment`].
    PostNotFound,
}

// ---------------------------------------------------------------------------
// Association lists.
//
// The store keys its data by strings and by post identifiers.  Both maps are
// kept as vectors of pairs whose keys are pairwise distinct; the spec
// functions below read such a list as a `Map`.
// ---------------------------------------------------------------------------

/// Whether the keys of the association list `l` are pairwise distinct.
pub open spec fn keys_unique<V>(l: Seq<(String, V)>) -> bool {
    forall|i: int, j: int|
        0 <= i < l.len() && 0 <= j < l.len() && i != j ==> l[i].0@ != l[j].0@
}

/// Whether the association list `l` has an entry with key `k`.
pub open spec fn assoc_has<V>(l: Seq<(String, V)>, k: Seq<char>) -> bool {
    exists|i: int| 0 <= i < l.len() && l[i].0@ == k
}

/// The value that the association list `l` holds under key `k`
/// (meaningful only when `assoc_has(l, k)` and the keys are unique).
pub open spec fn assoc_at<V>(l: Seq<(String, V)>, k: Seq<char>) -> V {
    l[choose|i: int| 0 <= i < l.len() && l[i].0@ == k].1
}

/// The association list `l`, read as a map from key views to values.
pub open spec fn assoc_map<V>(l: Seq<(String, V)>) -> Map<Seq<char>, V> {
    Map::new(|k: Seq<char>| assoc_has(l, k), |k: Seq<char>| assoc_at(l, k))
}

/// Under unique keys, an entry `(k, v)` at index `i` is the entry the map
/// yields for `k`.
proof fn lemma_assoc_index<V>(l: Seq<(String, V)>, i: int)
    requires
        keys_unique(l),
        0 <= i < l.len(),
    ensures
        assoc_has(l, l[i].0@),
        assoc_at(l, l[i].0@) == l[i].1,
{
    assert(assoc_has(l, l[i].0@));
    let j = choose|j: int| 0 <= j < l.len() && l[j].0@ == l[i].0@;
    assert(j == i);
}

/// Replacing the entry at index `i` by one whose key reads the same way
/// reads as a map `insert` on that key.
proof fn lemma_assoc_update<V>(l: Seq<(String, V)>, i: int, key: String, v: V)
    requires
        keys_unique(l),
        0 <= i < l.len(),
        key@ == l[i].0@,
    ensures
        keys_unique(l.update(i, (key, v))),
        assoc_map(l.update(i, (key, v))) =~= assoc_map(l).insert(key@, v),
{
    let l2 = l.update(i, (key, v));
    assert forall|k: Seq<char>| assoc_has(l2, k) <==> assoc_has(l, k) by {
        if assoc_has(l2, k) {
            let j = choose|j: int| 0 <= j < l2.len() && l2[j].0@ == k;
            assert(l[j].0@ == k);
        }
        if assoc_has(l, k) {
            let j = choose|j: int| 0 <= j < l.len() && l[j].0@ == k;
            assert(l2[j].0@ == k);
        }
    }
    assert forall|k: Seq<char>| assoc_has(l2, k) implies assoc_at(l2, k)
        == (if k == l[i].0@ { v } else { assoc_at(l, k) }) by {
        let j = choose|j: int| 0 <= j < l2.len() && l2[j].0@ == k;
        if k == l[i].0@ {
            assert(j == i);
        } else {
            assert(j != i);
            let j2 = choose|j2: int| 0 <= j2 < l.len() && l[j2].0@ == k;
            assert(j2 == j);
        }
    }
}

/// Appending an entry with a fresh key reads as a map `insert`.
proof fn lemma_assoc_push<V>(l: Seq<(String, V)>, key: String, v: V)
    requires
        keys_unique(l),
        !assoc_has(l, key@),
    ensures
        keys_unique(l.push((key, v))),
        assoc_map(l.push((key, v))) =~= assoc_map(l).insert(key@, v),
{
    let l2 = l.push((key, v));
    assert forall|i: int, j: int|
        0 <= i < l2.len() && 0 <= j < l2.len() && i != j implies l2[i].0@ != l2[j].0@ by {
        if i < l.len() && j < l.len() {
            assert(l[i].0@ != l[j].0@);
        } else if i < l.len() {
            assert(l2[j] == (key, v));
            assert(l[i].0@ != key@);
        } else {
            assert(l2[i] == (key, v));
            assert(l[j].0@ != key@);
        }
    }
    assert forall|k: Seq<char>| assoc_has(l2, k) <==> (assoc_has(l, k) || k == key@) by {
        if assoc_has(l2, k) {
            let j = choose|j: int| 0 <= j < l2.len() && l2[j].0@ == k;
            if j < l.len() {
                assert(assoc_has(l, k));
            }
        }
        if assoc_has(l, k) {
            let j = choose|j: int| 0 <= j < l.len() && l[j].0@ == k;
            assert(l2[j].0@ == k);
        }
        if k == key@ {
            assert(l2[l.len() as int].0@ == k);
        }
    }
    assert forall|k: Seq<char>| assoc_has(l2, k) implies assoc_at(l2, k)
        == (if k == key@ { v } else { assoc_at(l, k) }) by {
        let j = choose|j: int| 0 <= j < l2.len() && l2[j].0@ == k;
        if k == key@ {
            assert(j == l.len());
        } else {
            assert(j < l.len());
            let j2 = choose|j2: int| 0 <= j2 < l.len() && l[j2].0@ == k;
            assert(j2 == j);
        }
    }
}

/// Removing the entry at index `i` reads as a map `remove` on its key.
proof fn lemma_assoc_remove<V>(l: Seq<(String, V)>, i: int)
    requires
        keys_unique(l),
        0 <= i < l.len(),
    ensures
        keys_unique(l.remove(i)),
        assoc_map(l.remove(i)) =~= assoc_map(l).remove(l[i].0@),
{
    let l2 = l.remove(i);
    assert forall|a: int, b: int|
        0 <= a < l2.len() && 0 <= b < l2.len() && a != b implies l2[a].0@ != l2[b].0@ by {
        let a0: int = if a < i { a } else { a + 1 };
        let b0: int = if b < i { b } else { b + 1 };
        assert(l2[a] == l[a0]);
        assert(l2[b] == l[b0]);
    }
    assert forall|k: Seq<char>| assoc_has(l2, k) <==> (assoc_has(l, k) && k != l[i].0@) by {
        if assoc_has(l2, k) {
            let j = choose|j: int| 0 <= j < l2.len() && l2[j].0@ == k;
            let j0: int = if j < i { j } else { j + 1 };
            assert(l2[j] == l[j0]);
            assert(l[j0].0@ == k);
            assert(j0 != i);
        }
        if assoc_has(l, k) && k != l[i].0@ {
            let j = choose|j: int| 0 <= j < l.len() && l[j].0@ == k;
            assert(j != i);
            if j < i {
                assert(l2[j] == l[j]);
            } else {
                assert(l2[j - 1] == l[j]);
            }
        }
    }
    assert forall|k: Seq<char>| assoc_has(l2, k) implies assoc_at(l2, k) == assoc_at(l, k) by {
        let j = choose|j: int| 0 <= j < l2.len() && l2[j].0@ == k;
        let j0: int = if j < i { j } else { j + 1 };
        assert(l2[j] == l[j0]);
        let j2 = choose|j2: int| 0 <= j2 < l.len() && l[j2].0@ == k;
        assert(j2 == j0);
    }
}

// ---------------------------------------------------------------------------
// Post.
// ---------------------------------------------------------------------------

/// The mathematical model of a [`Post`].
pub ghost struct PostModel {
    /// The text content of the post.
    pub content: Seq<char>,
    /// For each username that has reacted: `true` for a like, `false` for a
    /// dislike.  A username outside the domain has no standing reaction.
    pub reactions: Map<Seq<char>, bool>,
    /// For each username that has commented: that user's comments, oldest
    /// first.
    pub comments: Map<Seq<char>, Seq<Seq<char>>>,
}

impl PostModel {
    /// A fresh post: the given content, no reactions, no comments.
    pub open spec fn empty(content: Seq<char>) -> PostModel {
        PostModel { content, reactions: Map::empty(), comments: Map::empty() }
    }

    /// The model after `user` likes the post.
    pub open spec fn like(self, user: Seq<char>) -> PostModel {
        PostModel { reactions: self.reactions.insert(user, true), ..self }
    }

    /// The model after `user` dislikes the post.
    pub open spec fn dislike(self, user: Seq<char>) -> PostModel {
        PostModel { reactions: self.reactions.insert(user, false), ..self }
    }

    /// The model after `user` withdraws any standing reaction.
    pub open spec fn unlike(self, user: Seq<char>) -> PostModel {
        PostModel { reactions: self.reactions.remove(user), ..self }
    }

    /// The comments `user` has left, oldest first; empty if none.
    pub open spec fn comments_of(self, user: Seq<char>) -> Seq<Seq<char>> {
        if self.comments.contains_key(user) {
            self.comments[user]
        } else {
            Seq::empty()
        }
    }

    /// The model after `user` appends the comment `content`.
    pub open spec fn add_comment(self, user: Seq<char>, content: Seq<char>) -> PostModel {
        PostModel {
            comments: self.comments.insert(user, self.comments_of(user).push(content)),
            ..self
        }
    }

    /// The set of usernames whose standing reaction is a like.
    pub open spec fn likers(self) -> Set<Seq<char>> {
        Set::new(|user: Seq<char>| self.reactions.contains_key(user) && self.reactions[user])
    }

    /// The set of usernames whose standing reaction is a dislike.
    pub open spec fn dislikers(self) -> Set<Seq<char>> {
        Set::new(|user: Seq<char>| self.reactions.contains_key(user) && !self.reactions[user])
    }
}

/// A single post: text content, the reactions (likes and dislikes) it has
/// received, and the comments left under it.
#[derive(Debug)]
pub struct Post {
    /// The text content of the post.
    pub content: String,
    /// Per username, `true` for a standing like and `false` for a standing
    /// dislike; absence means no standing reaction.
    pub likes_and_dislikes: Vec<(String, bool)>,
    /// Per username, that user's comments in the order they were added.
    pub comments: Vec<(String, Vec<String>)>,
}

impl View for Post {
    type V = PostModel;

    open spec fn view(&self) -> PostModel {
        PostModel {
            content: self.content@,
            reactions: assoc_map(self.likes_and_dislikes@),
            comments: assoc_map(self.comments@).map_values(|v: Vec<String>| v.deep_view()),
        }
    }
}

impl Post {
    /// Well-formedness: both association lists have pairwise distinct keys.
    pub open spec fn wf(&self) -> bool {
        keys_unique(self.likes_and_dislikes@) && keys_unique(self.comments@)
    }

    /// A fresh post with the given content and no interactions.
    pub fn new(content: String) -> (post: Post)
        ensures
            post.wf(),
            post@ == PostModel::empty(content@),
    {
        let post = Post {
            content,
            likes_and_dislikes: Vec::new(),
            comments: Vec::new(),
        };
        proof {
            assert(post@.reactions =~= Map::<Seq<char>, bool>::empty());
            assert(post@.comments =~= Map::<Seq<char>, Seq<Seq<char>>>::empty());
        }
        post
    }

    /// Record a like by `author_username`, overwriting any standing dislike.
    pub fn like(&mut self, author_username: &str)
        requires
            old(self).wf(),
        ensures
            final(self).wf(),
            final(self)@ == old(self)@.like(author_username@),
    {
        let key = author_username.to_owned();
        self.set_reaction(key, true);
    }

    /// Record a dislike by `author_username`, overwriting any standing like.
    pub fn dislike(&mut self, author_username: &str)
        requires
            old(self).wf(),
        ensures
            final(self).wf(),
            final(self)@ == old(self)@.dislike(author_username@),
    {
        let key = author_username.to_owned();
        self.set_reaction(key, false);
    }

    /// Set the reaction of `key` to `liked`, inserting an entry if none stands.
    fn set_reaction(&mut self, key: String, liked: bool)
        requires
            old(self).wf(),
        ensures
            final(self).wf(),
            final(self)@ == (PostModel {
                reactions: old(self)@.reactions.insert(key@, liked),
                ..old(self)@
            }),
    {
        match assoc_find(&self.likes_and_dislikes, &key) {
            Some(i) => {
                proof {
                    lemma_assoc_update(self.likes_and_dislikes@, i as int, key, liked);
                }
                self.likes_and_dislikes[i] = (key, liked);
            },
            None => {
                proof {
                    lemma_assoc_push(self.likes_and_dislikes@, key, liked);
                }
                self.likes_and_dislikes.push((key, liked));
            },
        }
    }

    /// Withdraw any standing reaction by `author_username`; a no-op when none
    /// stands.
    pub fn unlike(&mut self, author_username: &str)
        requires
            old(self).wf(),
        ensures
            final(self).wf(),
            final(self)@ == old(self)@.unlike(author_username@),
    {
        let key = author_username.to_owned();
        match assoc_find(&self.likes_and_dislikes, &key) {
            Some(i) => {
                proof {
                    lemma_assoc_index(self.likes_and_dislikes@, i as int);
                    lemma_assoc_remove(self.likes_and_dislikes@, i as int);
                }
                let _ = self.likes_and_dislikes.remove(i);
            },
            None => {
                proof {
                    assert(old(self)@.reactions.remove(key@) =~= old(self)@.reactions);
                }
            },
        }
    }

    /// Append the comment `content` under `author_username`'s list of
    /// comments on this post.
    pub fn add_comment(&mut self, author_username: &str, content: String)
        requires
            old(self).wf(),
        ensures
            final(self).wf(),
            final(self)@ == old(self)@.add_comment(author_username@, content@),
    {
        let ghost gcontent = content@;
        let key = author_username.to_owned();
        let ghost gkey = key@;
        match assoc_find(&self.comments, &key) {
            Some(i) => {
                let ghost before = self.comments@;
                proof {
                    lemma_assoc_index(before, i as int);
                }
                self.comments[i].1.push(content);
                proof {
                    let after_entry = self.comments@[i as int];
                    assert(self.comments@ =~= before.update(i as int, after_entry));
                    lemma_assoc_update(before, i as int, after_entry.0, after_entry.1);
                    assert(after_entry.1.deep_view()
                        =~= old(self)@.comments_of(gkey).push(gcontent));
                    assert(self@.comments =~= old(self)@.comments.insert(
                        gkey,
                        old(self)@.comments_of(gkey).push(gcontent),
                    ));
                }
            },
            None => {
                let single = vec![content];
                let ghost gsingle = single.deep_view();
                proof {
                    lemma_assoc_push(self.comments@, key, single);
                    assert(gsingle =~= old(self)@.comments_of(gkey).push(gcontent));
                }
                self.comments.push((key, single));
                proof {
                    assert(self@.comments =~= old(self)@.comments.insert(
                        gkey,
                        old(self)@.comments_of(gkey).push(gcontent),
                    ));
                }
            },
        }
    }
}

// ---------------------------------------------------------------------------
// Listing reactions and comments.
//
// The accessors below return vectors; the spec functions say exactly which
// sequence each accessor yields, walking the underlying list front to back.
// ---------------------------------------------------------------------------

/// The usernames with a standing like in `l`, in the order they appear.
pub open spec fn likers_list(l: Seq<(String, bool)>) -> Seq<Seq<char>>
    decreases l.len(),
{
    if l.len() == 0 {
        Seq::empty()
    } else {
        likers_list(l.drop_last()) + (if l.last().1 {
            seq![l.last().0@]
        } else {
            Seq::empty()
        })
    }
}

/// The usernames with a standing dislike in `l`, in the order they appear.
pub open spec fn dislikers_list(l: Seq<(String, bool)>) -> Seq<Seq<char>>
    decreases l.len(),
{
    if l.len() == 0 {
        Seq::empty()
    } else {
        dislikers_list(l.drop_last()) + (if !l.last().1 {
            seq![l.last().0@]
        } else {
            Seq::empty()
        })
    }
}

/// One user's comments `cs`, each paired with the username `user`.
pub open spec fn user_comment_pairs(user: Seq<char>, cs: Seq<Seq<char>>) -> Seq<
    (Seq<char>, Seq<char>),
> {
    cs.map_values(|c: Seq<char>| (user, c))
}

/// All `(username, comment)` pairs in `l`, user by user, each user's
/// comments oldest first.
pub open spec fn comments_list(l: Seq<(String, Vec<String>)>) -> Seq<(Seq<char>, Seq<char>)>
    decreases l.len(),
{
    if l.len() == 0 {
        Seq::empty()
    } else {
        comments_list(l.drop_last()) + user_comment_pairs(
            l.last().0@,
            l.last().1.deep_view(),
        )
    }
}

/// Under unique keys, `likers_list` and `dislikers_list` hold exactly the
/// usernames whose entry carries `true` (resp. `false`), without repetition.
pub proof fn lemma_reaction_lists(l: Seq<(String, bool)>)
    requires
        keys_unique(l),
    ensures
        forall|u: Seq<char>|
            likers_list(l).contains(u) <==> (assoc_has(l, u) && assoc_at(l, u) == true),
        forall|u: Seq<char>|
            dislikers_list(l).contains(u) <==> (assoc_has(l, u) && assoc_at(l, u) == false),
        likers_list(l).no_duplicates(),
        dislikers_list(l).no_duplicates(),
    decreases l.len(),
{
    if l.len() == 0 {
        assert forall|u: Seq<char>| !assoc_has(l, u) by {}
    } else {
        let l0 = l.drop_last();
        let e = l.last();
        assert(keys_unique(l0));
        lemma_reaction_lists(l0);
        assert(!assoc_has(l0, e.0@)) by {
            if assoc_has(l0, e.0@) {
                let j = choose|j: int| 0 <= j < l0.len() && l0[j].0@ == e.0@;
                assert(l[j].0@ == l[l.len() - 1].0@);
            }
        }
        assert(l0.push(e) =~= l);
        lemma_assoc_push(l0, e.0, e.1);
        assert forall|u: Seq<char>|
            likers_list(l).contains(u)
                <==> (assoc_has(l, u) && assoc_at(l, u) == true) by {
            lemma_reaction_membership_step(l, u, true);
        }
        assert forall|u: Seq<char>|
            dislikers_list(l).contains(u)
                <==> (assoc_has(l, u) && assoc_at(l, u) == false) by {
            lemma_reaction_membership_step(l, u, false);
        }
        assert(likers_list(l).no_duplicates()) by {
            lemma_reaction_nodup_step(l, true);
        }
        assert(dislikers_list(l).no_duplicates()) by {
            lemma_reaction_nodup_step(l, false);
        }
    }
}

/// The sequence `likers_list` (for `liked == true`) or `dislikers_list`
/// (for `liked == false`) over `l`.
spec fn reaction_list(l: Seq<(String, bool)>, liked: bool) -> Seq<Seq<char>> {
    if liked {
        likers_list(l)
    } else {
        dislikers_list(l)
    }
}

/// One step of the membership argument behind [`lemma_reaction_lists`].
proof fn lemma_reaction_membership_step(l: Seq<(String, bool)>, u: Seq<char>, liked: bool)
    requires
        keys_unique(l),
        l.len() > 0,
        forall|v: Seq<char>|
            reaction_list(l.drop_last(), liked).contains(v)
                <==> (assoc_has(l.drop_last(), v) && assoc_at(l.drop_last(), v) == liked),
        assoc_map(l) =~= assoc_map(l.drop_last()).insert(l.last().0@, l.last().1),
    ensures
        reaction_list(l, liked).contains(u) <==> (assoc_has(l, u) && assoc_at(l, u) == liked),
{
    let l0 = l.drop_last();
    let e = l.last();
    let whole = reaction_list(l, liked);
    let front = reaction_list(l0, liked);
    assert(assoc_has(l, u) == assoc_map(l).contains_key(u));
    assert(assoc_has(l0, u) == assoc_map(l0).contains_key(u));
    if whole.contains(u) {
        let k = choose|k: int| 0 <= k < whole.len() && whole[k] == u;
        if k < front.len() {
            assert(front.contains(u));
        } else {
            assert(u == e.0@ && e.1 == liked);
        }
        assert(assoc_has(l, u) && assoc_at(l, u) == liked);
    }
    if assoc_has(l, u) && assoc_at(l, u) == liked {
        if u == e.0@ {
            assert(whole[front.len() as int] == u);
        } else {
            assert(assoc_has(l0, u) && assoc_at(l0, u) == liked);
            let k = choose|k: int| 0 <= k < front.len() && front[k] == u;
            assert(whole[k] == u);
        }
        assert(whole.contains(u));
    }
}

/// One step of the distinctness argument behind [`lemma_reaction_lists`].
proof fn lemma_reaction_nodup_step(l: Seq<(String, bool)>, liked: bool)
    requires
        keys_unique(l),
        l.len() > 0,
        reaction_list(l.drop_last(), liked).no_duplicates(),
        forall|v: Seq<char>|
            reaction_list(l.drop_last(), liked).contains(v)
                <==> (assoc_has(l.drop_last(), v) && assoc_at(l.drop_last(), v) == liked),
    ensures
        reaction_list(l, liked).no_duplicates(),
{
    let l0 = l.drop_last();
    let e = l.last();
    let whole = reaction_list(l, liked);
    let front = reaction_list(l0, liked);
    assert(!assoc_has(l0, e.0@)) by {
        if assoc_has(l0, e.0@) {
            let j = choose|j: int| 0 <= j < l0.len() && l0[j].0@ == e.0@;
            assert(l[j].0@ == l[l.len() - 1].0@);
        }
    }
    assert forall|a: int, b: int|
        0 <= a < whole.len() && 0 <= b < whole.len() && a != b implies whole[a] != whole[b] by {
        if a < front.len() && b < front.len() {
            assert(whole[a] == front[a] && whole[b] == front[b]);
        } else if a < front.len() {
            assert(whole[b] == e.0@);
            assert(front.contains(front[a]));
        } else if b < front.len() {
            assert(whole[a] == e.0@);
            assert(front.contains(front[b]));
        }
    }
}

impl Post {
    /// The usernames that currently like this post, in the order their
    /// entries were first added.
    pub fn likers(&self) -> (r: Vec<String>)
        ensures
            r.deep_view() == likers_list(self.likes_and_dislikes@),
    {
        let l = &self.likes_and_dislikes;
        let mut r: Vec<String> = Vec::new();
        let mut i: usize = 0;
        while i < l.len()
            invariant
                i <= l@.len(),
                r.deep_view() == likers_list(l@.take(i as int)),
            decreases l@.len() - i,
        {
            let ghost prev = r.deep_view();
            if l[i].1 {
                r.push(l[i].0.clone());
            }
            proof {
                assert(l@.take(i + 1).drop_last() =~= l@.take(i as int));
                assert(l@.take(i + 1).last() == l@[i as int]);
                if l@[i as int].1 {
                    assert(r.deep_view() =~= prev + seq![l@[i as int].0@]);
                } else {
                    assert(r.deep_view() =~= prev + Seq::<Seq<char>>::empty());
                }
            }
            i += 1;
        }
        proof {
            assert(l@.take(l@.len() as int) =~= l@);
        }
        r
    }

    /// The usernames that currently dislike this post, in the order their
    /// entries were first added.
    pub fn dislikers(&self) -> (r: Vec<String>)
        ensures
            r.deep_view() == dislikers_list(self.likes_and_dislikes@),
    {
        let l = &self.likes_and_dislikes;
        let mut r: Vec<String> = Vec::new();
        let mut i: usize = 0;
        while i < l.len()
            invariant
                i <= l@.len(),
                r.deep_view() == dislikers_list(l@.take(i as int)),
            decreases l@.len() - i,
        {
            let ghost prev = r.deep_view();
            if !l[i].1 {
                r.push(l[i].0.clone());
            }
            proof {
                assert(l@.take(i + 1).drop_last() =~= l@.take(i as int));
                assert(l@.take(i + 1).last() == l@[i as int]);
                if !l@[i as int].1 {
                    assert(r.deep_view() =~= prev + seq![l@[i as int].0@]);
                } else {
                    assert(r.deep_view() =~= prev + Seq::<Seq<char>>::empty());
                }
            }
            i += 1;
        }
        proof {
            assert(l@.take(l@.len() as int) =~= l@);
        }
        r
    }

    /// Every `(username, comment)` pair on this post, user by user, each
    /// user's comments oldest first.
    pub fn comments(&self) -> (r: Vec<(String, String)>)
        ensures
            r.deep_view() == comments_list(self.comments@),
    {
        let l = &self.comments;
        let mut r: Vec<(String, String)> = Vec::new();
        let mut i: usize = 0;
        while i < l.len()
            invariant
                i <= l@.len(),
                r.deep_view() == comments_list(l@.take(i as int)),
            decreases l@.len() - i,
        {
            let cs = &l[i].1;
            let mut j: usize = 0;
            while j < cs.len()
                invariant
                    i < l@.len(),
                    cs == &l@[i as int].1,
                    j <= cs@.len(),
                    r.deep_view() == comments_list(l@.take(i as int)) + user_comment_pairs(
                        l@[i as int].0@,
                        cs.deep_view().take(j as int),
                    ),
                decreases cs@.len() - j,
            {
                let ghost prev = r.deep_view();
                r.push((l[i].0.clone(), cs[j].clone()));
                proof {
                    assert(r.deep_view() =~= prev.push((l@[i as int].0@, cs@[j as int]@)));
                    assert(user_comment_pairs(l@[i as int].0@, cs.deep_view().take(j + 1))
                        =~= user_comment_pairs(l@[i as int].0@, cs.deep_view().take(j as int)).push(
                            (l@[i as int].0@, cs@[j as int]@),
                        ));
                }
                j += 1;
            }
            proof {
                assert(cs.deep_view().take(j as int) =~= cs.deep_view());
                assert(l@.take(i + 1).drop_last() =~= l@.take(i as int));
                assert(l@.take(i + 1).last() == l@[i as int]);
            }
            i += 1;
        }
        proof {
            assert(l@.take(l@.len() as int) =~= l@);
        }
        r
    }

    /// The lists yielded by [`Post::likers`] and [`Post::dislikers`] hold
    /// exactly the model's likers and dislikers, without repetition.
    pub proof fn lemma_reaction_lists_model(&self)
        requires
            self.wf(),
        ensures
            forall|u: Seq<char>|
                likers_list(self.likes_and_dislikes@).contains(u) <==> self@.likers().contains(u),
            forall|u: Seq<char>|
                dislikers_list(self.likes_and_dislikes@).contains(u) <==> self@.dislikers().contains(
                    u,
                ),
            likers_list(self.likes_and_dislikes@).no_duplicates(),
            dislikers_list(self.likes_and_dislikes@).no_duplicates(),
    {
        lemma_reaction_lists(self.likes_and_dislikes@);
    }
}

/// A successful registration leaves the username registered.  By
/// [`State::register_user`]'s contract, a second registration of the same
/// name can then only fail with [`StoreError::AlreadyRegistered`] and leave
/// the store — its user set included — exactly as it was.
pub proof fn lemma_register_twice(m: StateModel, user: Seq<char>)
    ensures
        (StateModel { users: m.users.insert(user, Set::empty()), ..m }).users.contains_key(user),
{
}

// ---------------------------------------------------------------------------
// Laws of a single post.
// ---------------------------------------------------------------------------

/// However a post has been liked, disliked and unliked before, after
/// `like(user)` the user stands among the likers and not the dislikers,
/// after `dislike(user)` among the dislikers and not the likers, and after
/// `unlike(user)` in neither; every other username's standing is untouched
/// by all three.
pub proof fn lemma_reaction_state(m: PostModel, user: Seq<char>)
    ensures
        m.like(user).likers().contains(user),
        !m.like(user).dislikers().contains(user),
        m.dislike(user).dislikers().contains(user),
        !m.dislike(user).likers().contains(user),
        !m.unlike(user).likers().contains(user),
        !m.unlike(user).dislikers().contains(user),
        forall|v: Seq<char>|
            v != user ==> (m.like(user).likers().contains(v) <==> m.likers().contains(v)),
        forall|v: Seq<char>|
            v != user ==> (m.like(user).dislikers().contains(v) <==> m.dislikers().contains(v)),
        forall|v: Seq<char>|
            v != user ==> (m.dislike(user).likers().contains(v) <==> m.likers().contains(v)),
        forall|v: Seq<char>|
            v != user ==> (m.dislike(user).dislikers().contains(v) <==> m.dislikers().contains(v)),
        forall|v: Seq<char>|
            v != user ==> (m.unlike(user).likers().contains(v) <==> m.likers().contains(v)),
        forall|v: Seq<char>|
            v != user ==> (m.unlike(user).dislikers().contains(v) <==> m.dislikers().contains(v)),
{
}

/// Comments accumulate: adding two comments in turn appends both to the
/// user's list, in call order, and leaves every other user's list as it
/// was.
pub proof fn lemma_add_comment_cumulative(
    m: PostModel,
    user: Seq<char>,
    c1: Seq<char>,
    c2: Seq<char>,
)
    ensures
        m.add_comment(user, c1).add_comment(user, c2).comments_of(user) == m.comments_of(user)
            + seq![c1, c2],
        forall|v: Seq<char>|
            v != user ==> m.add_comment(user, c1).add_comment(user, c2).comments_of(v)
                == m.comments_of(v),
{
    assert(m.add_comment(user, c1).add_comment(user, c2).comments_of(user) =~= m.comments_of(user)
        + seq![c1, c2]);
}

/// The comments attributed to `user` in a sequence of `(username, comment)`
/// pairs, in the order the pairs appear.
pub open spec fn user_comments_in(pairs: Seq<(Seq<char>, Seq<char>)>, user: Seq<char>) -> Seq<
    Seq<char>,
>
    decreases pairs.len(),
{
    if pairs.len() == 0 {
        Seq::empty()
    } else {
        user_comments_in(pairs.drop_last(), user) + (if pairs.last().0 == user {
            seq![pairs.last().1]
        } else {
            Seq::empty()
        })
    }
}

/// `user_comments_in` splits over concatenation.
proof fn lemma_user_comments_in_concat(
    a: Seq<(Seq<char>, Seq<char>)>,
    b: Seq<(Seq<char>, Seq<char>)>,
    user: Seq<char>,
)
    ensures
        user_comments_in(a + b, user) == user_comments_in(a, user) + user_comments_in(b, user),
    decreases b.len(),
{
    if b.len() == 0 {
        assert(a + b =~= a);
        assert(user_comments_in(b, user) == Seq::<Seq<char>>::empty());
        assert(user_comments_in(a, user) + Seq::<Seq<char>>::empty() =~= user_comments_in(a, user));
    } else {
        lemma_user_comments_in_concat(a, b.drop_last(), user);
        assert((a + b).drop_last() =~= a + b.drop_last());
        assert((a + b).last() == b.last());
        if b.last().0 == user {
            assert(user_comments_in(a, user) + (user_comments_in(b.drop_last(), user)
                + seq![b.last().1]) =~= (user_comments_in(a, user) + user_comments_in(
                b.drop_last(),
                user,
            )) + seq![b.last().1]);
        } else {
            assert(user_comments_in(b, user) == user_comments_in(b.drop_last(), user) + Seq::<
                Seq<char>,
            >::empty());
            assert(user_comments_in(b.drop_last(), user) + Seq::<Seq<char>>::empty()
                =~= user_comments_in(b.drop_last(), user));
        }
    }
}

/// Among one user's own pairs, `user_comments_in` recovers exactly that
/// user's comments, and nothing for anyone else.
proof fn lemma_user_comments_in_pairs(owner: Seq<char>, cs: Seq<Seq<char>>, user: Seq<char>)
    ensures
        user_comments_in(user_comment_pairs(owner, cs), user) == (if owner == user {
            cs
        } else {
            Seq::<Seq<char>>::empty()
        }),
    decreases cs.len(),
{
    let pairs = user_comment_pairs(owner, cs);
    if cs.len() == 0 {
        assert(pairs.len() == 0);
    } else {
        lemma_user_comments_in_pairs(owner, cs.drop_last(), user);
        assert(pairs.drop_last() =~= user_comment_pairs(owner, cs.drop_last()));
        assert(pairs.last() == (owner, cs.last()));
        if owner == user {
            assert(user_comments_in(pairs, user) == cs.drop_last() + seq![cs.last()]);
            assert(cs.drop_last() + seq![cs.last()] =~= cs);
        } else {
            assert(user_comments_in(pairs, user) == Seq::<Seq<char>>::empty() + Seq::<
                Seq<char>,
            >::empty());
            assert(Seq::<Seq<char>>::empty() + Seq::<Seq<char>>::empty() =~= Seq::<
                Seq<char>,
            >::empty());
        }
    }
}

/// Walking [`comments_list`] and keeping `user`'s pairs recovers exactly the
/// model's comment list for `user`: the listing loses no comment and
/// invents none.
pub proof fn lemma_comments_list_by_user(l: Seq<(String, Vec<String>)>, user: Seq<char>)
    requires
        keys_unique(l),
    ensures
        user_comments_in(comments_list(l), user) == (if assoc_has(l, user) {
            assoc_at(l, user).deep_view()
        } else {
            Seq::<Seq<char>>::empty()
        }),
    decreases l.len(),
{
    if l.len() == 0 {
        assert(!assoc_has(l, user));
    } else {
        let l0 = l.drop_last();
        let e = l.last();
        assert(keys_unique(l0));
        lemma_comments_list_by_user(l0, user);
        lemma_user_comments_in_concat(
            comments_list(l0),
            user_comment_pairs(e.0@, e.1.deep_view()),
            user,
        );
        lemma_user_comments_in_pairs(e.0@, e.1.deep_view(), user);
        assert(!assoc_has(l0, e.0@)) by {
            if assoc_has(l0, e.0@) {
                let j = choose|j: int| 0 <= j < l0.len() && l0[j].0@ == e.0@;
                assert(l[j].0@ == l[l.len() - 1].0@);
            }
        }
        assert(l0.push(e) =~= l);
        lemma_assoc_push(l0, e.0, e.1);
        if e.0@ == user {
            assert(user_comments_in(comments_list(l0), user) =~= Seq::<Seq<char>>::empty());
            assert(Seq::<Seq<char>>::empty() + e.1.deep_view() =~= e.1.deep_view());
        } else {
            assert(user_comments_in(comments_list(l), user) =~= user_comments_in(
                comments_list(l0),
                user,
            ));
        }
    }
}

impl Post {
    /// [`lemma_comments_list_by_user`], said of a post: filtering the pairs
    /// of [`Post::comments`] down to one username yields that username's
    /// comments as the model holds them, oldest first.
    pub proof fn lemma_comments_by_user(&self, user: Seq<char>)
        requires
            self.wf(),
        ensures
            user_comments_in(comments_list(self.comments@), user) == self@.comments_of(user),
    {
        lemma_comments_list_by_user(self.comments@, user);
    }
}

// ---------------------------------------------------------------------------
// State.
// ---------------------------------------------------------------------------

/// Whether one of the first `m` entries of `users` carries the username of
/// the pair `p` and lists its post identifier.
pub open spec fn pair_listed(
    users: Seq<(String, Vec<u64>)>,
    m: int,
    p: (Seq<char>, u64),
) -> bool {
    exists|i: int|
        0 <= i < m && (#[trigger] users[i]).0@ == p.0 && users[i].1@.contains(p.1)
}

/// Whether some entry of `users` lists the post identifier `pid`.
pub open spec fn id_listed(users: Seq<(String, Vec<u64>)>, pid: int) -> bool {
    exists|i: int| 0 <= i < users.len() && (#[trigger] users[i]).1@.contains(pid as u64)
}

/// Whether every post identifier below `nposts` is listed by some entry of
/// `users`.
pub open spec fn lists_cover(users: Seq<(String, Vec<u64>)>, nposts: int) -> bool {
    forall|pid: int| 0 <= pid < nposts ==> #[trigger] id_listed(users, pid)
}

/// The mathematical model of a [`State`].
pub ghost struct StateModel {
    /// For each registered username: the identifiers of the posts that user
    /// has created.
    pub users: Map<Seq<char>, Set<u64>>,
    /// For each identifier of a post ever created: that post's model.
    pub posts: Map<u64, PostModel>,
}

impl StateModel {
    /// An empty store: no users, no posts.
    pub open spec fn empty() -> StateModel {
        StateModel { users: Map::empty(), posts: Map::empty() }
    }
}

/// The whole store: every registered user and every post.
///
/// Post identifiers are handed out by a strictly increasing counter (the
/// number of posts ever created), so they are unique over the store's
/// lifetime.
pub struct State {
    /// Per registered username: the identifiers of that user's posts, in
    /// creation order.
    pub users: Vec<(String, Vec<u64>)>,
    /// Every post ever created; the post with identifier `i` sits at
    /// index `i`.
    pub posts: Vec<Post>,
}

impl View for State {
    type V = StateModel;

    open spec fn view(&self) -> StateModel {
        StateModel {
            users: assoc_map(self.users@).map_values(|v: Vec<u64>| v@.to_set()),
            posts: Map::new(
                |id: u64| (id as int) < self.posts@.len(),
                |id: u64| self.posts@[id as int]@,
            ),
        }
    }
}

impl State {

    /// Well-formedness, preserved by every operation:
    /// usernames are unique, every post is well-formed, each user's
    /// identifier list is duplicate-free, every listed identifier names an
    /// existing post, no identifier is listed by two users, and every post
    /// is listed by some user.
    pub open spec fn wf(&self) -> bool {
        &&& keys_unique(self.users@)
        &&& forall|i: int| 0 <= i < self.posts@.len() ==> (#[trigger] self.posts@[i]).wf()
        &&& forall|i: int|
            0 <= i < self.users@.len() ==> (#[trigger] self.users@[i]).1@.no_duplicates()
        &&& forall|i: int, j: int|
            0 <= i < self.users@.len() && 0 <= j < self.users@[i].1@.len()
                ==> (#[trigger] self.users@[i].1@[j] as int) < self.posts@.len()
        &&& forall|i1: int, j1: int, i2: int, j2: int|
            #![trigger self.users@[i1].1@[j1], self.users@[i2].1@[j2]]
            0 <= i1 < self.users@.len() && 0 <= j1 < self.users@[i1].1@.len() && 0 <= i2
                < self.users@.len() && 0 <= j2 < self.users@[i2].1@.len() && i1 != i2
                ==> self.users@[i1].1@[j1] != self.users@[i2].1@[j2]
        &&& lists_cover(self.users@, self.posts@.len() as int)
    }

    /// A fresh, empty store.
    pub fn new() -> (state: State)
        ensures
            state.wf(),
            state@ == StateModel::empty(),
    {
        let state = State { users: Vec::new(), posts: Vec::new() };
        proof {
            assert(state@.users =~= Map::<Seq<char>, Set<u64>>::empty());
            assert(state@.posts =~= Map::<u64, PostModel>::empty());
        }
        state
    }

    /// Register `username`.  Fails with [`StoreError::AlreadyRegistered`],
    /// and changes nothing, exactly when the username is already taken.
    pub fn register_user(&mut self, username: &str) -> (r: Result<(), StoreError>)
        requires
            old(self).wf(),
        ensures
            final(self).wf(),
            match r {
                Ok(()) => !old(self)@.users.contains_key(username@) && final(self)@
                    == (StateModel {
                    users: old(self)@.users.insert(username@, Set::empty()),
                    ..old(self)@
                }),
                Err(e) => e == StoreError::AlreadyRegistered && old(self)@.users.contains_key(
                    username@,
                ) && *final(self) == *old(self),
            },
    {
        let key = username.to_owned();
        match assoc_find(&self.users, &key) {
            Some(i) => {
                proof {
                    lemma_assoc_index(self.users@, i as int);
                }
                Err(StoreError::AlreadyRegistered)
            },
            None => {
                let fresh: Vec<u64> = Vec::new();
                let ghost gkey = key@;
                proof {
                    lemma_assoc_push(self.users@, key, fresh);
                }
                self.users.push((key, fresh));
                proof {
                    assert(self@.users =~= old(self)@.users.insert(gkey, Set::empty())) by {
                        assert(self.users@.last().1@.to_set() =~= Set::<u64>::empty());
                    }
                    assert(self@.posts =~= old(self)@.posts);
                    assert forall|pid: int|
                        0 <= pid < self.posts@.len() implies #[trigger] id_listed(
                        self.users@,
                        pid,
                    ) by {
                        assert(id_listed(old(self).users@, pid));
                        let i = choose|i: int|
                            0 <= i < old(self).users@.len() && (#[trigger] old(
                                self,
                            ).users@[i]).1@.contains(pid as u64);
                        assert(self.users@[i].1@.contains(pid as u64));
                    }
                }
                Ok(())
            },
        }
    }

    /// Append `content` as a comment by `author_username` on post
    /// `post_id`.  Fails with [`StoreError::PostNotFound`], and changes
    /// nothing, exactly when no post carries that identifier.  The author
    /// need not be a registered user.
    pub fn create_comment(
        &mut self,
        post_id: u64,
        author_username: &str,
        content: String,
    ) -> (r: Result<(), StoreError>)
        requires
            old(self).wf(),
        ensures
            final(self).wf(),
            match r {
                Ok(()) => old(self)@.posts.contains_key(post_id) && final(self)@
                    == (StateModel {
                    posts: old(self)@.posts.insert(
                        post_id,
                        old(self)@.posts[post_id].add_comment(author_username@, content@),
                    ),
                    ..old(self)@
                }),
                Err(e) => e == StoreError::PostNotFound && !old(self)@.posts.contains_key(post_id)
                    && *final(self) == *old(self),
            },
    {
        if post_id < self.posts.len() as u64 {
            let idx = post_id as usize;
            self.posts[idx].add_comment(author_username, content);
            proof {
                assert(self.posts@ =~= old(self).posts@.update(
                    post_id as int,
                    self.posts@[post_id as int],
                ));
                assert(self@.posts =~= old(self)@.posts.insert(
                    post_id,
                    old(self)@.posts[post_id].add_comment(author_username@, content@),
                ));
                assert(self@.users =~= old(self)@.users);
                assert(self.users == old(self).users);
                assert(self.posts@.len() == old(self).posts@.len());
            }
            Ok(())
        } else {
            Err(StoreError::PostNotFound)
        }
    }

    /// Create a post with the given `content` under `username`, returning
    /// the new post's identifier, which no post ever carried before.  Fails
    /// with [`StoreError::UnknownUser`], and changes nothing, exactly when
    /// the username is not registered.
    pub fn create_post(&mut self, username: &str, content: String) -> (r: Result<u64, StoreError>)
        requires
            old(self).wf(),
        ensures
            final(self).wf(),
            match r {
                Ok(id) => old(self)@.users.contains_key(username@) && !old(
                    self,
                )@.posts.contains_key(id) && final(self)@.users =~= old(self)@.users.insert(
                    username@,
                    old(self)@.users[username@].insert(id),
                ) && final(self)@.posts =~= old(self)@.posts.insert(id, PostModel::empty(content@)),
                Err(e) => e == StoreError::UnknownUser && !old(self)@.users.contains_key(username@)
                    && *final(self) == *old(self),
            },
    {
        let ghost gcontent = content@;
        let key = username.to_owned();
        match assoc_find(&self.users, &key) {
            None => Err(StoreError::UnknownUser),
            Some(i) => {
                proof {
                    lemma_assoc_index(self.users@, i as int);
                }
                let id = self.posts.len() as u64;
                let post = Post::new(content);
                self.posts.push(post);
                let ghost ubefore = self.users@;
                self.users[i].1.push(id);
                proof {
                    let after_entry = self.users@[i as int];
                    assert(self.users@ =~= ubefore.update(i as int, after_entry));
                    lemma_assoc_update(ubefore, i as int, after_entry.0, after_entry.1);
                    assert forall|y: u64|
                        after_entry.1@.contains(y)
                            <==> (ubefore[i as int].1@.contains(y) || y == id) by {
                        let old_ids = ubefore[i as int].1@;
                        if after_entry.1@.contains(y) {
                            let k = choose|k: int|
                                0 <= k < after_entry.1@.len() && after_entry.1@[k] == y;
                            if k < old_ids.len() {
                                assert(old_ids.contains(y));
                            }
                        }
                        if old_ids.contains(y) {
                            let k = choose|k: int| 0 <= k < old_ids.len() && old_ids[k] == y;
                            assert(after_entry.1@[k] == y);
                        }
                        if y == id {
                            assert(after_entry.1@.last() == y);
                        }
                    }
                    assert(after_entry.1@.to_set() =~= ubefore[i as int].1@.to_set().insert(id));
                    assert(self@.users =~= old(self)@.users.insert(
                        key@,
                        old(self)@.users[key@].insert(id),
                    ));
                    assert(self@.posts =~= old(self)@.posts.insert(id, PostModel::empty(gcontent)));
                    self.lemma_wf_after_create(old(self), i as int, id);
                }
                Ok(id)
            },
        }
    }

    /// Well-formedness carries over a post creation: the new identifier is
    /// the old post count, appended to the list of the user at `ui`.
    proof fn lemma_wf_after_create(&self, prev: &State, ui: int, id: u64)
        requires
            prev.wf(),
            0 <= ui < prev.users@.len(),
            id == prev.posts@.len(),
            self.posts@.len() == prev.posts@.len() + 1,
            forall|k: int| 0 <= k < prev.posts@.len() ==> self.posts@[k] == prev.posts@[k],
            self.posts@[id as int].wf(),
            self.users@ =~= prev.users@.update(
                ui,
                (prev.users@[ui].0, self.users@[ui].1),
            ),
            self.users@[ui].1@ =~= prev.users@[ui].1@.push(id),
        ensures
            self.wf(),
    {
        assert(keys_unique(self.users@)) by {
            assert forall|a: int, b: int|
                0 <= a < self.users@.len() && 0 <= b < self.users@.len() && a != b
                    implies self.users@[a].0@ != self.users@[b].0@ by {
                assert(self.users@[a].0 == prev.users@[a].0);
                assert(self.users@[b].0 == prev.users@[b].0);
            }
        }
        assert forall|x: int|
            0 <= x < self.users@.len() implies (#[trigger] self.users@[x]).1@.no_duplicates() by {
            if x != ui {
                assert(self.users@[x] == prev.users@[x]);
            } else {
                let old_ids = prev.users@[ui].1@;
                assert forall|j1: int, j2: int|
                    0 <= j1 < self.users@[x].1@.len() && 0 <= j2 < self.users@[x].1@.len() && j1
                        != j2 implies self.users@[x].1@[j1] != self.users@[x].1@[j2] by {
                    if j1 < old_ids.len() && j2 < old_ids.len() {
                        assert(old_ids.no_duplicates());
                    } else if j1 < old_ids.len() {
                        assert((prev.users@[ui].1@[j1] as int) < prev.posts@.len());
                    } else if j2 < old_ids.len() {
                        assert((prev.users@[ui].1@[j2] as int) < prev.posts@.len());
                    }
                }
            }
        }
        assert forall|x: int, j: int|
            0 <= x < self.users@.len() && 0 <= j < self.users@[x].1@.len() implies (
            #[trigger] self.users@[x].1@[j] as int) < self.posts@.len() by {
            if x != ui {
                assert(self.users@[x] == prev.users@[x]);
                assert((prev.users@[x].1@[j] as int) < prev.posts@.len());
            } else {
                if j < prev.users@[ui].1@.len() {
                    assert((prev.users@[ui].1@[j] as int) < prev.posts@.len());
                }
            }
        }
        assert forall|i1: int, j1: int, i2: int, j2: int|
            #![trigger self.users@[i1].1@[j1], self.users@[i2].1@[j2]]
            0 <= i1 < self.users@.len() && 0 <= j1 < self.users@[i1].1@.len() && 0 <= i2
                < self.users@.len() && 0 <= j2 < self.users@[i2].1@.len() && i1 != i2
                implies self.users@[i1].1@[j1] != self.users@[i2].1@[j2] by {
            if i1 != ui && i2 != ui {
                assert(self.users@[i1] == prev.users@[i1]);
                assert(self.users@[i2] == prev.users@[i2]);
                assert(prev.users@[i1].1@[j1] != prev.users@[i2].1@[j2]);
            } else if i1 == ui {
                assert(self.users@[i2] == prev.users@[i2]);
                assert((prev.users@[i2].1@[j2] as int) < prev.posts@.len());
                if j1 < prev.users@[ui].1@.len() {
                    assert(prev.users@[i1].1@[j1] != prev.users@[i2].1@[j2]);
                }
            } else {
                assert(self.users@[i1] == prev.users@[i1]);
                assert((prev.users@[i1].1@[j1] as int) < prev.posts@.len());
                if j2 < prev.users@[ui].1@.len() {
                    assert(prev.users@[i1].1@[j1] != prev.users@[i2].1@[j2]);
                }
            }
        }
        assert forall|pid: int| 0 <= pid < self.posts@.len() implies #[trigger] id_listed(
            self.users@,
            pid,
        ) by {
            if pid < prev.posts@.len() {
                assert(id_listed(prev.users@, pid));
                let x = choose|x: int|
                    0 <= x < prev.users@.len() && (#[trigger] prev.users@[x]).1@.contains(
                        pid as u64,
                    );
                let j = choose|j: int|
                    0 <= j < prev.users@[x].1@.len() && prev.users@[x].1@[j] == pid as u64;
                assert(self.users@[x].1@[j] == pid as u64);
                assert(self.users@[x].1@.contains(pid as u64));
            } else {
                assert(self.users@[ui].1@.last() == id);
                assert(self.users@[ui].1@.contains(pid as u64));
            }
        }
    }

    /// The post carrying `post_id`, if the store holds one, for direct
    /// mutation.  The final store holds, under that identifier, whatever the
    /// caller leaves behind the returned reference, and is well-formed again
    /// as long as that post is.
    pub fn get_post_mut(&mut self, post_id: &u64) -> (r: Option<&mut Post>)
        requires
            old(self).wf(),
        ensures
            match r {
                Some(post) => old(self)@.posts.contains_key(*post_id) && post.wf() && post@ == old(
                    self,
                )@.posts[*post_id] && final(self).users == old(self).users && final(self).posts@
                    == old(self).posts@.update(*post_id as int, *final(post)) && (final(post).wf()
                    ==> final(self).wf()),
                None => !old(self)@.posts.contains_key(*post_id) && *final(self) == *old(self)
                    && final(self).wf(),
            },
    {
        if *post_id < self.posts.len() as u64 {
            let idx = *post_id as usize;
            Some(&mut self.posts[idx])
        } else {
            None
        }
    }
}

/// One user's post identifiers `ids`, each paired with the username `user`.
pub open spec fn user_post_pairs(user: Seq<char>, ids: Seq<u64>) -> Seq<(Seq<char>, u64)> {
    ids.map_values(|id: u64| (user, id))
}

/// All `(username, post identifier)` pairs in `l`, user by user, each
/// user's posts in creation order.
pub open spec fn posts_list(l: Seq<(String, Vec<u64>)>) -> Seq<(Seq<char>, u64)>
    decreases l.len(),
{
    if l.len() == 0 {
        Seq::empty()
    } else {
        posts_list(l.drop_last()) + user_post_pairs(l.last().0@, l.last().1@)
    }
}

impl State {
    /// Every `(username, post identifier)` pair in the store, user by user.
    pub fn posts(&self) -> (r: Vec<(String, u64)>)
        ensures
            r.deep_view() == posts_list(self.users@),
    {
        let l = &self.users;
        let mut r: Vec<(String, u64)> = Vec::new();
        let mut i: usize = 0;
        while i < l.len()
            invariant
                i <= l@.len(),
                r.deep_view() == posts_list(l@.take(i as int)),
            decreases l@.len() - i,
        {
            let ids = &l[i].1;
            let mut j: usize = 0;
            while j < ids.len()
                invariant
                    i < l@.len(),
                    ids == &l@[i as int].1,
                    j <= ids@.len(),
                    r.deep_view() == posts_list(l@.take(i as int)) + user_post_pairs(
                        l@[i as int].0@,
                        ids@.take(j as int),
                    ),
                decreases ids@.len() - j,
            {
                let ghost prev = r.deep_view();
                r.push((l[i].0.clone(), ids[j]));
                proof {
                    assert(r.deep_view() =~= prev.push((l@[i as int].0@, ids@[j as int])));
                    assert(user_post_pairs(l@[i as int].0@, ids@.take(j + 1))
                        =~= user_post_pairs(l@[i as int].0@, ids@.take(j as int)).push(
                            (l@[i as int].0@, ids@[j as int]),
                        ));
                }
                j += 1;
            }
            proof {
                assert(ids@.take(j as int) =~= ids@);
                assert(l@.take(i + 1).drop_last() =~= l@.take(i as int));
                assert(l@.take(i + 1).last() == l@[i as int]);
            }
            i += 1;
        }
        proof {
            assert(l@.take(l@.len() as int) =~= l@);
        }
        r
    }

    /// One step of the induction behind [`State::lemma_posts_list_complete`]:
    /// over the first `m` users, every listed pair names one user's listed
    /// identifier, every listed identifier of those users appears, and no
    /// identifier appears twice.
    proof fn lemma_posts_list_prefix(&self, m: int)
        requires
            self.wf(),
            0 <= m <= self.users@.len(),
        ensures
            forall|k: int|
                0 <= k < posts_list(self.users@.take(m)).len() ==> #[trigger] pair_listed(
                    self.users@,
                    m,
                    posts_list(self.users@.take(m))[k],
                ),
            forall|i: int, j: int|
                0 <= i < m && 0 <= j < self.users@[i].1@.len() ==> #[trigger] posts_list(
                    self.users@.take(m),
                ).contains((self.users@[i].0@, self.users@[i].1@[j])),
            forall|k1: int, k2: int|
                #![trigger posts_list(self.users@.take(m))[k1], posts_list(self.users@.take(m))[k2]]
                0 <= k1 < posts_list(self.users@.take(m)).len() && 0 <= k2 < posts_list(
                    self.users@.take(m),
                ).len() && k1 != k2 ==> posts_list(self.users@.take(m))[k1].1 != posts_list(
                    self.users@.take(m),
                )[k2].1,
        decreases m,
    {
        let whole = posts_list(self.users@.take(m));
        if m == 0 {
            assert(self.users@.take(0).len() == 0);
            assert(whole.len() == 0);
        } else {
            self.lemma_posts_list_prefix(m - 1);
            let front = posts_list(self.users@.take(m - 1));
            let e = self.users@[m - 1];
            assert(self.users@.take(m).drop_last() =~= self.users@.take(m - 1));
            assert(self.users@.take(m).last() == e);
            assert(whole == front + user_post_pairs(e.0@, e.1@));
            assert forall|k: int|
                0 <= k < whole.len() implies #[trigger] pair_listed(self.users@, m, whole[k]) by {
                if k < front.len() {
                    assert(whole[k] == front[k]);
                    assert(pair_listed(self.users@, m - 1, front[k]));
                    let i = choose|i: int|
                        0 <= i < m - 1 && (#[trigger] self.users@[i]).0@ == front[k].0
                            && self.users@[i].1@.contains(front[k].1);
                    assert(0 <= i < m && self.users@[i].0@ == whole[k].0
                        && self.users@[i].1@.contains(whole[k].1));
                } else {
                    let t = k - front.len();
                    assert(whole[k] == (e.0@, e.1@[t]));
                    assert(e.1@.contains(e.1@[t]));
                    assert(0 <= m - 1 < m && self.users@[m - 1].0@ == whole[k].0
                        && self.users@[m - 1].1@.contains(whole[k].1));
                }
            }
            assert forall|i: int, j: int|
                0 <= i < m && 0 <= j < self.users@[i].1@.len() implies #[trigger] whole.contains(
                (self.users@[i].0@, self.users@[i].1@[j]),
            ) by {
                let p = (self.users@[i].0@, self.users@[i].1@[j]);
                if i < m - 1 {
                    assert(front.contains(p));
                    let k = choose|k: int| 0 <= k < front.len() && front[k] == p;
                    assert(whole[k] == p);
                } else {
                    assert(whole[front.len() + j] == p);
                }
                assert(whole.contains(p));
            }
            assert forall|k1: int, k2: int|
                #![trigger whole[k1], whole[k2]]
                0 <= k1 < whole.len() && 0 <= k2 < whole.len() && k1 != k2 implies whole[k1].1
                != whole[k2].1 by {
                if k1 < front.len() && k2 < front.len() {
                    assert(whole[k1] == front[k1] && whole[k2] == front[k2]);
                } else if front.len() <= k1 && front.len() <= k2 {
                    let t1 = k1 - front.len();
                    let t2 = k2 - front.len();
                    assert(whole[k1] == (e.0@, e.1@[t1]));
                    assert(whole[k2] == (e.0@, e.1@[t2]));
                    assert(e.1@.no_duplicates());
                } else {
                    let (kf, kt) = if k1 < front.len() {
                        (k1, k2)
                    } else {
                        (k2, k1)
                    };
                    assert(whole[kf] == front[kf]);
                    assert(pair_listed(self.users@, m - 1, front[kf]));
                    let i = choose|i: int|
                        0 <= i < m - 1 && (#[trigger] self.users@[i]).0@ == front[kf].0
                            && self.users@[i].1@.contains(front[kf].1);
                    let j = choose|j: int|
                        0 <= j < self.users@[i].1@.len() && self.users@[i].1@[j] == front[kf].1;
                    let t = kt - front.len();
                    assert(whole[kt] == (e.0@, e.1@[t]));
                    assert(self.users@[i].1@[j] != self.users@[m - 1].1@[t]);
                }
            }
        }
    }

    /// The listing behind [`State::posts`] is faithful: it holds exactly
    /// one pair per post in the store — as many pairs as there are posts,
    /// each naming a registered user and one of that user's posts, with no
    /// identifier repeated.
    pub proof fn lemma_posts_list_complete(&self)
        requires
            self.wf(),
        ensures
            posts_list(self.users@).len() == self.posts@.len(),
            forall|k: int|
                0 <= k < posts_list(self.users@).len() ==> self@.users.contains_key(
                    (#[trigger] posts_list(self.users@)[k]).0,
                ) && self@.users[posts_list(self.users@)[k].0].contains(
                    posts_list(self.users@)[k].1,
                ) && self@.posts.contains_key(posts_list(self.users@)[k].1),
            forall|k1: int, k2: int|
                #![trigger posts_list(self.users@)[k1], posts_list(self.users@)[k2]]
                0 <= k1 < posts_list(self.users@).len() && 0 <= k2 < posts_list(self.users@).len()
                    && k1 != k2 ==> posts_list(self.users@)[k1].1 != posts_list(self.users@)[k2].1,
    {
        broadcast use vstd::std_specs::vec::axiom_spec_len;

        let n = self.users@.len() as int;
        let nposts = self.posts@.len() as int;
        assert(vstd::std_specs::vec::spec_vec_len(&self.posts) == self.posts@.len());
        self.lemma_posts_list_prefix(n);
        assert(self.users@.take(n) =~= self.users@);
        let pl = posts_list(self.users@);
        assert forall|k: int|
            0 <= k < pl.len() implies self@.users.contains_key((#[trigger] pl[k]).0)
            && self@.users[pl[k].0].contains(pl[k].1) && self@.posts.contains_key(pl[k].1) by {
            assert(pair_listed(self.users@, n, pl[k]));
            let i = choose|i: int|
                0 <= i < n && (#[trigger] self.users@[i]).0@ == pl[k].0
                    && self.users@[i].1@.contains(pl[k].1);
            lemma_assoc_index(self.users@, i);
            assert(self.users@[i].1@.to_set().contains(pl[k].1));
            let j = choose|j: int|
                0 <= j < self.users@[i].1@.len() && self.users@[i].1@[j] == pl[k].1;
            assert((self.users@[i].1@[j] as int) < nposts);
        }
        let ids = pl.map_values(|p: (Seq<char>, u64)| p.1 as int);
        assert(ids.no_duplicates()) by {
            assert forall|a: int, b: int|
                0 <= a < ids.len() && 0 <= b < ids.len() && a != b implies ids[a] != ids[b] by {
                assert(pl[a].1 != pl[b].1);
            }
        }
        assert(ids.to_set() =~= vstd::set_lib::set_int_range(0, nposts)) by {
            assert forall|x: int| ids.to_set().contains(x) implies 0 <= x < nposts by {
                let k = choose|k: int| 0 <= k < ids.len() && ids[k] == x;
                assert(self@.posts.contains_key(pl[k].1));
            }
            assert forall|x: int| 0 <= x < nposts implies ids.to_set().contains(x) by {
                assert(id_listed(self.users@, x));
                let i = choose|i: int|
                    0 <= i < self.users@.len() && (#[trigger] self.users@[i]).1@.contains(
                        x as u64,
                    );
                let j = choose|j: int|
                    0 <= j < self.users@[i].1@.len() && self.users@[i].1@[j] == x as u64;
                assert(pl.contains((self.users@[i].0@, self.users@[i].1@[j])));
                let k = choose|k: int|
                    0 <= k < pl.len() && pl[k] == (self.users@[i].0@, self.users@[i].1@[j]);
                assert(ids[k] == x);
            }
        }
        ids.unique_seq_to_set();
        vstd::set_lib::lemma_int_range(0, nposts);
    }

    /// The post carrying `post_id`, if the store holds one.
    pub fn get_post(&self, post_id: &u64) -> (r: Option<&Post>)
        requires
            self.wf(),
        ensures
            match r {
                Some(post) => self@.posts.contains_key(*post_id) && post.wf() && post@
                    == self@.posts[*post_id] && *post == self.posts@[*post_id as int],
                None => !self@.posts.contains_key(*post_id),
            },
    {
        if *post_id < self.posts.len() as u64 {
            Some(&self.posts[*post_id as usize])
        } else {
            None
        }
    }
}

/// Look up `k` in the association list `l`, returning the index of its entry.
fn assoc_find<V>(l: &Vec<(String, V)>, k: &String) -> (r: Option<usize>)
    ensures
        match r {
            Some(i) => i < l@.len() && l@[i as int].0@ == k@,
            None => !assoc_has(l@, k@),
        },
{
    let mut i: usize = 0;
    while i < l.len()
        invariant
            i <= l@.len(),
            forall|j: int| 0 <= j < i ==> l@[j].0@ != k@,
        decreases l@.len() - i,
    {
        if l[i].0 == *k {
            return Some(i);
        }
        i += 1;
    }
    None
}

} // verus!
