use std::collections::HashMap;
use vstd::prelude::*;
use crate::types::{Address, ContractError, texts, copy_texts, copy_addresses, contains_text, same_text};

verus! {

broadcast use vstd::std_specs::hash::group_hash_axioms, vstd::seq_lib::group_seq_properties;

/// The largest number of tags a post may carry.
pub const MAX_TAGS: usize = 10;

/// A post. `likes` counts like calls minus unlike calls, floored at zero,
/// and `likers` holds one entry per counted like (an address may appear more
/// than once); `comments` counts the comments added to it.
#[derive(Debug)]
pub struct Post {
    pub id: u64,
    pub author: Address,
    pub content: String,
    pub tags: Vec<String>,
    pub timestamp: u64,
    pub likes: u32,
    pub likers: Vec<Address>,
    pub comments: u32,
    pub anonymous: bool,
}

pub ghost struct PostView {
    pub id: u64,
    pub author: Address,
    pub content: Seq<char>,
    pub tags: Seq<Seq<char>>,
    pub timestamp: u64,
    pub likes: u32,
    pub likers: Seq<Address>,
    pub comments: u32,
    pub anonymous: bool,
}

impl View for Post {
    type V = PostView;

    open spec fn view(&self) -> PostView {
        PostView {
            id: self.id,
            author: self.author,
            content: self.content@,
            tags: texts(self.tags@),
            timestamp: self.timestamp,
            likes: self.likes,
            likers: self.likers@,
            comments: self.comments,
            anonymous: self.anonymous,
        }
    }
}

impl Post {
    pub fn duplicate(&self) -> (r: Post)
        ensures
            r@ == self@,
    {
        Post {
            id: self.id,
            author: self.author,
            content: self.content.clone(),
            tags: copy_texts(&self.tags),
            timestamp: self.timestamp,
            likes: self.likes,
            likers: copy_addresses(&self.likers),
            comments: self.comments,
            anonymous: self.anonymous,
        }
    }
}

/// A comment; `sequence` grows with every comment added and orders a post's
/// comments.
#[derive(Debug)]
pub struct Comment {
    pub post_id: u64,
    pub author: Address,
    pub content: String,
    pub anonymous: bool,
    pub sequence: u64,
}

pub ghost struct CommentView {
    pub post_id: u64,
    pub author: Address,
    pub content: Seq<char>,
    pub anonymous: bool,
    pub sequence: u64,
}

impl View for Comment {
    type V = CommentView;

    open spec fn view(&self) -> CommentView {
        CommentView {
            post_id: self.post_id,
            author: self.author,
            content: self.content@,
            anonymous: self.anonymous,
            sequence: self.sequence,
        }
    }
}

impl Comment {
    pub fn duplicate(&self) -> (r: Comment)
        ensures
            r@ == self@,
    {
        Comment {
            post_id: self.post_id,
            author: self.author,
            content: self.content.clone(),
            anonymous: self.anonymous,
            sequence: self.sequence,
        }
    }
}

/// The ids of the live posts that carry `tag`.
pub open spec fn tagged(posts: Map<u64, PostView>, tag: Seq<char>) -> Set<u64> {
    Set::new(|id: u64| posts.contains_key(id) && posts[id].tags.contains(tag))
}

/// The ids of the live posts written by `author`.
pub open spec fn authored(posts: Map<u64, PostView>, author: Address) -> Set<u64> {
    Set::new(|id: u64| posts.contains_key(id) && posts[id].author == author)
}

/// The comments on `post_id`, in the order they were added.
pub open spec fn comments_on(cs: Seq<CommentView>, post_id: u64) -> Seq<CommentView>
    decreases cs.len(),
{
    if cs.len() == 0 {
        Seq::empty()
    } else {
        let before = comments_on(cs.drop_last(), post_id);
        if cs.last().post_id == post_id {
            before.push(cs.last())
        } else {
            before
        }
    }
}

/// The comments on every post but `post_id`, in the order they were added.
pub open spec fn comments_off(cs: Seq<CommentView>, post_id: u64) -> Seq<CommentView>
    decreases cs.len(),
{
    if cs.len() == 0 {
        Seq::empty()
    } else {
        let before = comments_off(cs.drop_last(), post_id);
        if cs.last().post_id != post_id {
            before.push(cs.last())
        } else {
            before
        }
    }
}

/// Content must not be empty; tags must be distinct and few enough.
pub open spec fn valid_post(content: Seq<char>, tags: Seq<Seq<char>>) -> bool {
    content.len() > 0 && distinct_tags(tags).len() <= MAX_TAGS
}

/// The tags without repeats, each kept where it first occurs.
pub open spec fn distinct_tags(tags: Seq<Seq<char>>) -> Seq<Seq<char>>
    decreases tags.len(),
{
    if tags.len() == 0 {
        tags
    } else {
        let before = distinct_tags(tags.drop_last());
        if before.contains(tags.last()) {
            before
        } else {
            before.push(tags.last())
        }
    }
}

/// The distinct tags hold each tag of the list once.
pub proof fn distinct_tags_properties(tags: Seq<Seq<char>>)
    ensures
        distinct_tags(tags).no_duplicates(),
        forall|t: Seq<char>| #[trigger] distinct_tags(tags).contains(t) <==> tags.contains(t),
    decreases tags.len(),
{
    if tags.len() > 0 {
        let rest = tags.drop_last();
        let before = distinct_tags(rest);
        distinct_tags_properties(rest);
        assert forall|t: Seq<char>| #[trigger] tags.contains(t) <==> rest.contains(t) || t == tags.last() by {
            if tags.contains(t) && t != tags.last() {
                let k = choose|k: int| 0 <= k < tags.len() && tags[k] == t;
                assert(rest[k] == t);
            }
            if rest.contains(t) {
                let k = choose|k: int| 0 <= k < rest.len() && rest[k] == t;
                assert(tags[k] == t);
            }
            if t == tags.last() {
                assert(tags[tags.len() - 1] == t);
            }
        }
        if !before.contains(tags.last()) {
            let after = before.push(tags.last());
            assert forall|a: int, b: int|
                0 <= a < after.len() && 0 <= b < after.len() && a != b implies after[a] != after[b] by {
                if a == before.len() {
                    assert(before.contains(before[b]));
                } else if b == before.len() {
                    assert(before.contains(before[a]));
                }
            }
        }
    }
}

/// The tags without repeats, each kept where it first occurs.
fn distinct_texts(v: &Vec<String>) -> (r: Vec<String>)
    ensures
        texts(r@) == distinct_tags(texts(v@)),
{
    let mut r: Vec<String> = Vec::new();
    let mut i: usize = 0;
    while i < v.len()
        invariant
            i <= v.len(),
            texts(r@) == distinct_tags(texts(v@).take(i as int)),
        decreases v.len() - i,
    {
        let ghost before = r@;
        assert(texts(v@).take(i as int + 1).drop_last() == texts(v@).take(i as int));
        assert(texts(v@).take(i as int + 1).last() == v@[i as int]@);
        if !contains_text(&r, &v[i]) {
            r.push(v[i].clone());
            assert(texts(r@) =~= texts(before).push(v@[i as int]@));
        }
        i += 1;
    }
    assert(texts(v@).take(v.len() as int) == texts(v@));
    r
}

pub open spec fn incremented(n: u32) -> u32 {
    if n == u32::MAX {
        n
    } else {
        (n + 1) as u32
    }
}

/// The likers left after `liker` takes a like back: that address's most
/// recent like goes, or the most recent like of all if it has none.
pub open spec fn withdrawn(likers: Seq<Address>, liker: Address) -> Seq<Address>
    decreases likers.len(),
{
    if likers.len() == 0 {
        likers
    } else if likers.last() == liker {
        likers.drop_last()
    } else if likers.drop_last().contains(liker) {
        withdrawn(likers.drop_last(), liker).push(likers.last())
    } else {
        likers.drop_last()
    }
}

/// A post after a like by `liker`; at the largest count nothing changes.
pub open spec fn liked(p: PostView, liker: Address) -> PostView {
    if p.likes == u32::MAX {
        p
    } else {
        PostView { likes: (p.likes + 1) as u32, likers: p.likers.push(liker), ..p }
    }
}

/// A post after `liker` takes a like back; at zero nothing changes.
pub open spec fn unliked(p: PostView, liker: Address) -> PostView {
    if p.likes == 0 {
        p
    } else {
        PostView { likes: (p.likes - 1) as u32, likers: withdrawn(p.likers, liker), ..p }
    }
}

/// Each like adds one to the count and each unlike takes one away, never
/// below zero: so a like followed by an unlike from the same address leaves
/// the post as it was, below the largest count.
pub proof fn like_then_unlike_restores(p: PostView, liker: Address)
    requires
        p.likes < u32::MAX,
    ensures
        liked(p, liker).likes == p.likes + 1,
        unliked(p, liker).likes == if p.likes == 0 { 0 } else { p.likes - 1 },
        unliked(liked(p, liker), liker) == p,
{
    assert(p.likers.push(liker).drop_last() =~= p.likers);
}

proof fn lemma_withdrawn_at(likers: Seq<Address>, liker: Address, j: int)
    requires
        0 <= j < likers.len(),
        likers[j] == liker,
        forall|k: int| j < k < likers.len() ==> likers[k] != liker,
    ensures
        withdrawn(likers, liker) == likers.remove(j),
    decreases likers.len(),
{
    if j == likers.len() - 1 {
        assert(likers.drop_last() =~= likers.remove(j));
    } else {
        assert(likers.drop_last()[j] == liker);
        lemma_withdrawn_at(likers.drop_last(), liker, j);
        assert(likers.drop_last().remove(j).push(likers.last()) =~= likers.remove(j));
    }
}

/// The position of the last entry equal to `a`.
fn last_index(v: &Vec<Address>, a: Address) -> (r: Option<usize>)
    ensures
        match r {
            Some(j) => j < v@.len() && v@[j as int] == a && forall|k: int|
                j < k < v@.len() ==> v@[k] != a,
            None => !v@.contains(a),
        },
{
    let mut i: usize = v.len();
    while i > 0
        invariant
            i <= v@.len(),
            forall|k: int| i <= k < v@.len() ==> v@[k] != a,
        decreases i,
    {
        i -= 1;
        if v[i] == a {
            return Some(i);
        }
    }
    None
}

/// The set of a post's ids after `added` tags of post `id` were filed.
spec fn partly_tagged(
    before: Map<u64, PostView>,
    id: u64,
    added: Seq<Seq<char>>,
    tag: Seq<char>,
) -> Set<u64> {
    if added.contains(tag) {
        tagged(before, tag).insert(id)
    } else {
        tagged(before, tag)
    }
}

proof fn lemma_same_index_fields(before: Map<u64, PostView>, after: Map<u64, PostView>)
    requires
        before.dom() == after.dom(),
        forall|id: u64|
            #[trigger] after.contains_key(id) ==> after[id].author == before[id].author
                && after[id].tags == before[id].tags,
    ensures
        forall|a: Address| #[trigger] authored(after, a) == authored(before, a),
        forall|t: Seq<char>| #[trigger] tagged(after, t) == tagged(before, t),
{
    assert forall|a: Address| #[trigger] authored(after, a) == authored(before, a) by {
        assert(authored(after, a) =~= authored(before, a));
    }
    assert forall|t: Seq<char>| #[trigger] tagged(after, t) == tagged(before, t) by {
        assert(tagged(after, t) =~= tagged(before, t));
    }
}

/// Under every tag, the tag index files exactly the live posts that carry
/// that tag.
pub proof fn tag_index_matches_tags(c: PostContract, tag: Seq<char>)
    requires
        c.wf(),
    ensures
        c.tag_index(tag) == tagged(c.posts(), tag),
{
    assert forall|id: u64| c.tag_index(tag).contains(id) == tagged(c.posts(), tag).contains(id) by {
        if c.tag_index(tag).contains(id) {
            let i = choose|i: int|
                0 <= i < c.by_tag@.len() && c.by_tag@[i].tag@ == tag
                    && #[trigger] c.by_tag@[i].post_ids@.contains(id);
            assert(c.by_tag@[i].post_ids@.to_set().contains(id));
        }
        if tagged(c.posts(), tag).contains(id) {
            assert(tag_keys(c.by_tag@).contains(tag));
            let i = choose|i: int| 0 <= i < tag_keys(c.by_tag@).len() && tag_keys(c.by_tag@)[i] == tag;
            assert(c.by_tag@[i].post_ids@.to_set().contains(id));
            assert(c.by_tag@[i].post_ids@.contains(id));
        }
    }
    assert(c.tag_index(tag) =~= tagged(c.posts(), tag));
}

/// Under every author, the author index files exactly that author's live
/// posts.
pub proof fn author_index_matches_authors(c: PostContract, author: Address)
    requires
        c.wf(),
    ensures
        c.author_index(author) == authored(c.posts(), author),
{
    assert(author_ids(c.by_author@, author) == authored(c.posts(), author));
}

/// A post that does not exist, or was deleted, is filed under no tag and no
/// author.
pub proof fn absent_post_is_unindexed(c: PostContract, id: u64, tag: Seq<char>, author: Address)
    requires
        c.wf(),
        !c.posts().contains_key(id),
    ensures
        !c.tag_index(tag).contains(id),
        !c.author_index(author).contains(id),
{
    tag_index_matches_tags(c, tag);
    author_index_matches_authors(c, author);
}

/// Every live post id is at most the last id handed out, so the next post's
/// id is fresh.
pub proof fn live_ids_are_bounded(c: PostContract)
    requires
        c.wf(),
    ensures
        forall|x: u64| #[trigger] c.posts().contains_key(x) ==> x <= c.last_post_id() && c.posts()[x].id == x,
{
}

/// Every stored comment belongs to a live post.
pub proof fn comments_belong_to_live_posts(c: PostContract)
    requires
        c.wf(),
    ensures
        forall|i: int|
            0 <= i < c.comments().len() ==> c.posts().contains_key(#[trigger] c.comments()[i].post_id),
{
}

proof fn lemma_no_comments_on(cs: Seq<CommentView>, post_id: u64)
    requires
        forall|i: int| 0 <= i < cs.len() ==> #[trigger] cs[i].post_id != post_id,
    ensures
        comments_on(cs, post_id) == Seq::<CommentView>::empty(),
    decreases cs.len(),
{
    if cs.len() > 0 {
        assert(cs.last().post_id != post_id);
        lemma_no_comments_on(cs.drop_last(), post_id);
    }
}

/// A post that does not exist, or was deleted, has no comments.
pub proof fn absent_post_has_no_comments(c: PostContract, post_id: u64)
    requires
        c.wf(),
        !c.posts().contains_key(post_id),
    ensures
        comments_on(c.comments(), post_id) == Seq::<CommentView>::empty(),
{
    lemma_no_comments_on(c.comments(), post_id);
}

proof fn lemma_comments_off_kept(cs: Seq<CommentView>, post_id: u64, j: int)
    requires
        0 <= j < comments_off(cs, post_id).len(),
    ensures
        comments_off(cs, post_id)[j].post_id != post_id,
        exists|k: int| 0 <= k < cs.len() && cs[k] == comments_off(cs, post_id)[j],
    decreases cs.len(),
{
    let before = comments_off(cs.drop_last(), post_id);
    if j < before.len() {
        lemma_comments_off_kept(cs.drop_last(), post_id, j);
        let k = choose|k: int| 0 <= k < cs.drop_last().len() && cs.drop_last()[k] == before[j];
        assert(cs[k] == comments_off(cs, post_id)[j]);
    } else {
        assert(comments_off(cs, post_id)[j] == cs.last());
        assert(cs[cs.len() - 1] == cs.last());
    }
}

/// The post after each address in `likers` likes it, in turn.
pub open spec fn after_likes(p: PostView, likers: Seq<Address>) -> PostView
    decreases likers.len(),
{
    if likers.len() == 0 {
        p
    } else {
        liked(after_likes(p, likers.drop_last()), likers.last())
    }
}

/// The post after each address in `unlikers` takes a like back, in turn.
pub open spec fn after_unlikes(p: PostView, unlikers: Seq<Address>) -> PostView
    decreases unlikers.len(),
{
    if unlikers.len() == 0 {
        p
    } else {
        unliked(after_unlikes(p, unlikers.drop_last()), unlikers.last())
    }
}

proof fn lemma_after_likes(p: PostView, likers: Seq<Address>)
    ensures
        after_likes(p, likers).likes == if p.likes + likers.len() > u32::MAX {
            u32::MAX as int
        } else {
            p.likes + likers.len()
        },
    decreases likers.len(),
{
    if likers.len() > 0 {
        lemma_after_likes(p, likers.drop_last());
    }
}

proof fn lemma_after_unlikes(p: PostView, unlikers: Seq<Address>)
    ensures
        after_unlikes(p, unlikers).likes == if p.likes >= unlikers.len() {
            p.likes - unlikers.len()
        } else {
            0
        },
    decreases unlikers.len(),
{
    if unlikers.len() > 0 {
        lemma_after_unlikes(p, unlikers.drop_last());
    }
}

/// Starting from no likes, `n` likes (by any addresses, repeats counted)
/// followed by `m` unlikes (by any addresses, no earlier like needed) leave
/// `n - m` likes, or none when `m >= n`; the like count stops at the
/// largest `u32`, so `n` counts as at most that.
pub proof fn likes_minus_unlikes(p: PostView, likers: Seq<Address>, unlikers: Seq<Address>)
    requires
        p.likes == 0,
    ensures
        ({
            let n = if likers.len() > u32::MAX { u32::MAX as int } else { likers.len() as int };
            after_unlikes(after_likes(p, likers), unlikers).likes == if n >= unlikers.len() {
                n - unlikers.len()
            } else {
                0
            }
        }),
{
    lemma_after_likes(p, likers);
    lemma_after_unlikes(after_likes(p, likers), unlikers);
}

/// A fresh list holding the same ids.
fn copy_ids(v: &Vec<u64>) -> (r: Vec<u64>)
    ensures
        r@ == v@,
{
    let mut r: Vec<u64> = Vec::new();
    let mut i: usize = 0;
    while i < v.len()
        invariant
            i <= v.len(),
            r@ == v@.take(i as int),
        decreases v.len() - i,
    {
        r.push(v[i]);
        assert(v@.take(i as int + 1) == v@.take(i as int).push(v@[i as int]));
        i += 1;
    }
    assert(v@.take(v.len() as int) == v@);
    r
}

/// The ids of `v` but `x`, in their order.
fn without(v: &Vec<u64>, x: u64) -> (r: Vec<u64>)
    ensures
        forall|y: u64| #[trigger] r@.contains(y) <==> v@.contains(y) && y != x,
        v@.no_duplicates() ==> r@.no_duplicates(),
{
    let mut r: Vec<u64> = Vec::new();
    let mut i: usize = 0;
    while i < v.len()
        invariant
            i <= v.len(),
            forall|y: u64| #[trigger] r@.contains(y) <==> v@.take(i as int).contains(y) && y != x,
            v@.no_duplicates() ==> r@.no_duplicates(),
        decreases v.len() - i,
    {
        assert(v@.take(i as int + 1) == v@.take(i as int).push(v@[i as int]));
        if v[i] != x {
            let ghost before = r@;
            r.push(v[i]);
            proof {
                if v@.no_duplicates() {
                    assert(!v@.take(i as int).contains(v@[i as int]));
                    assert forall|a: int, b: int|
                        0 <= a < r@.len() && 0 <= b < r@.len() && a != b implies r@[a]
                        != r@[b] by {
                        if a == before.len() {
                            assert(before.contains(before[b]));
                        } else if b == before.len() {
                            assert(before.contains(before[a]));
                        }
                    }
                }
            }
        }
        i += 1;
    }
    assert(v@.take(v.len() as int) == v@);
    r
}

/// What creating a post does: on valid input a fresh id, a stored post with
/// the distinct tags in first-occurrence order, no likes or comments, and that id at the end of the creation order; on
/// invalid input nothing changes.
pub open spec fn created(
    pre: PostContract,
    post: PostContract,
    r: Result<Post, ContractError>,
    author: Address,
    content: Seq<char>,
    tags: Seq<Seq<char>>,
    timestamp: u64,
    anonymous: bool,
) -> bool {
    match r {
        Ok(p) => {
            &&& valid_post(content, tags) && pre.last_post_id() < u64::MAX
            &&& p@ == PostView {
                id: (pre.last_post_id() + 1) as u64,
                author,
                content,
                tags: distinct_tags(tags),
                timestamp,
                likes: 0,
                likers: Seq::empty(),
                comments: 0,
                anonymous,
            }
            &&& !pre.posts().contains_key(p.id)
            &&& forall|x: u64| #[trigger] pre.posts().contains_key(x) ==> x < p.id
            &&& post.posts() == pre.posts().insert(p.id, p@)
            &&& post.order() == pre.order().push(p.id)
            &&& post.comments() == pre.comments()
            &&& post.last_post_id() == p.id
            &&& post.last_comment_seq() == pre.last_comment_seq()
        },
        Err(e) => {
            &&& !(valid_post(content, tags) && pre.last_post_id() < u64::MAX)
            &&& e == ContractError::InvalidInput
            &&& post == pre
        },
    }
}

/// The ids of a list of posts, in order.
pub open spec fn ids_of(ps: Seq<Post>) -> Seq<u64> {
    ps.map_values(|p: Post| p.id)
}

/// `ps` lists, once each, the stored posts whose ids form `ids`.
pub open spec fn lists_posts(ps: Seq<Post>, posts: Map<u64, PostView>, ids: Set<u64>) -> bool {
    &&& ids_of(ps).to_set() == ids
    &&& ids_of(ps).no_duplicates()
    &&& forall|i: int|
        0 <= i < ps.len() ==> posts.contains_key(#[trigger] ps[i].id) && ps[i]@ == posts[ps[i].id]
}

/// Only the post `id` changed, to `v`; comments and counters stay.
pub open spec fn post_replaced(pre: PostContract, post: PostContract, id: u64, v: PostView) -> bool {
    &&& post.posts() == pre.posts().insert(id, v)
    &&& post.order() == pre.order()
    &&& post.comments() == pre.comments()
    &&& post.last_post_id() == pre.last_post_id()
    &&& post.last_comment_seq() == pre.last_comment_seq()
}

struct TagEntry {
    tag: String,
    post_ids: Vec<u64>,
}

spec fn author_ids(by_author: Map<u64, Vec<u64>>, author: Address) -> Set<u64> {
    if by_author.contains_key(author.id) {
        by_author[author.id]@.to_set()
    } else {
        Set::empty()
    }
}

spec fn author_index_ok(by_author: Map<u64, Vec<u64>>, posts: Map<u64, PostView>) -> bool {
    &&& forall|a: Address| #[trigger] author_ids(by_author, a) == authored(posts, a)
    &&& forall|k: u64| #[trigger] by_author.contains_key(k) ==> by_author[k]@.no_duplicates()
}

spec fn tag_keys(by_tag: Seq<TagEntry>) -> Seq<Seq<char>> {
    by_tag.map_values(|e: TagEntry| e.tag@)
}

spec fn tag_index_ok(by_tag: Seq<TagEntry>, posts: Map<u64, PostView>) -> bool {
    &&& forall|i: int, j: int| 0 <= i < j < by_tag.len() ==> by_tag[i].tag@ != by_tag[j].tag@
    &&& forall|i: int|
        0 <= i < by_tag.len() ==> #[trigger] by_tag[i].post_ids@.to_set() == tagged(
            posts,
            by_tag[i].tag@,
        ) && by_tag[i].post_ids@.no_duplicates()
    &&& forall|t: Seq<char>, id: u64| #[trigger]
        tagged(posts, t).contains(id) ==> tag_keys(by_tag).contains(t)
}

/// The content index: posts, their comments, and the author and tag indexes
/// that lead from an author or a tag to post ids.
pub struct PostContract {
    posts: HashMap<u64, Post>,
    order: Vec<u64>,
    by_author: HashMap<u64, Vec<u64>>,
    by_tag: Vec<TagEntry>,
    comments: Vec<Comment>,
    last_post_id: u64,
    last_comment_seq: u64,
}

impl PostContract {
    /// The live posts by id.
    pub closed spec fn posts(&self) -> Map<u64, PostView> {
        self.posts@.map_values(|p: Post| p@)
    }

    /// The live post ids in the order the posts were created.
    pub closed spec fn order(&self) -> Seq<u64> {
        self.order@
    }

    /// Every stored comment, in the order they were added.
    pub closed spec fn comments(&self) -> Seq<CommentView> {
        self.comments@.map_values(|c: Comment| c@)
    }

    /// The id of the last post created; ids are never reused.
    pub closed spec fn last_post_id(&self) -> u64 {
        self.last_post_id
    }

    /// The sequence number of the last comment added.
    pub closed spec fn last_comment_seq(&self) -> u64 {
        self.last_comment_seq
    }

    /// The post ids that the author index files under `author`.
    pub closed spec fn author_index(&self, author: Address) -> Set<u64> {
        author_ids(self.by_author@, author)
    }

    /// The post ids that the tag index files under `tag`.
    pub closed spec fn tag_index(&self, tag: Seq<char>) -> Set<u64> {
        Set::new(
            |id: u64|
                exists|i: int|
                    0 <= i < self.by_tag@.len() && self.by_tag@[i].tag@ == tag
                        && #[trigger] self.by_tag@[i].post_ids@.contains(id),
        )
    }

    spec fn records_ok(&self) -> bool {
        &&& forall|id: u64| #[trigger]
            self.posts@.contains_key(id) ==> self.posts@[id].id == id && id <= self.last_post_id
                && self.posts@[id].likes == self.posts@[id].likers@.len()
        &&& self.order@.no_duplicates()
        &&& forall|id: u64| #[trigger] self.order@.contains(id) <==> self.posts@.contains_key(id)
        &&& forall|i: int|
            0 <= i < self.comments().len() ==> self.posts().contains_key(
                #[trigger] self.comments()[i].post_id,
            )
    }

    /// Ids match their keys and never exceed the last id handed out, like
    /// counts match their likers, every comment belongs to a live post, the
    /// creation order lists each live post once,
    /// and both indexes agree with the posts they point to.
    pub closed spec fn wf(&self) -> bool {
        &&& self.records_ok()
        &&& author_index_ok(self.by_author@, self.posts())
        &&& tag_index_ok(self.by_tag@, self.posts())
    }

    /// An empty index.
    pub fn new() -> (r: PostContract)
        ensures
            r.wf(),
            r.posts() == Map::<u64, PostView>::empty(),
            r.comments() == Seq::<CommentView>::empty(),
            r.last_post_id() == 0,
            r.last_comment_seq() == 0,
    {
        let r = PostContract {
            posts: HashMap::new(),
            order: Vec::new(),
            by_author: HashMap::new(),
            by_tag: Vec::new(),
            comments: Vec::new(),
            last_post_id: 0,
            last_comment_seq: 0,
        };
        assert(r.posts() =~= Map::<u64, PostView>::empty());
        assert(r.comments() =~= Seq::<CommentView>::empty());
        assert forall|a: Address| #[trigger]
            author_ids(r.by_author@, a) == authored(r.posts(), a) by {
            assert(authored(r.posts(), a) =~= Set::empty());
        }
        r
    }

    fn find_tag(&self, tag: &String) -> (r: Option<usize>)
        ensures
            match r {
                Some(j) => j < self.by_tag@.len() && self.by_tag@[j as int].tag@ == tag@,
                None => !tag_keys(self.by_tag@).contains(tag@),
            },
    {
        let mut j: usize = 0;
        while j < self.by_tag.len()
            invariant
                j <= self.by_tag@.len(),
                forall|i: int| 0 <= i < j ==> self.by_tag@[i].tag@ != tag@,
            decreases self.by_tag@.len() - j,
        {
            if same_text(&self.by_tag[j].tag, tag) {
                return Some(j);
            }
            j += 1;
        }
        proof {
            if tag_keys(self.by_tag@).contains(tag@) {
                let i = choose|i: int| 0 <= i < tag_keys(self.by_tag@).len() && tag_keys(self.by_tag@)[i] == tag@;
                assert(self.by_tag@[i].tag@ == tag@);
            }
        }
        None
    }

    fn index_author(
        &mut self,
        author: Address,
        id: u64,
        Ghost(before): Ghost<Map<u64, PostView>>,
        Ghost(p): Ghost<PostView>,
    )
        requires
            author_index_ok(old(self).by_author@, before),
            !before.contains_key(id),
            p.author == author,
        ensures
            author_index_ok(final(self).by_author@, before.insert(id, p)),
            final(self).posts == old(self).posts,
            final(self).order == old(self).order,
            final(self).by_tag == old(self).by_tag,
            final(self).comments == old(self).comments,
            final(self).last_post_id == old(self).last_post_id,
            final(self).last_comment_seq == old(self).last_comment_seq,
    {
        let mut ids = match self.by_author.get(&author.id) {
            Some(v) => copy_ids(v),
            None => Vec::new(),
        };
        let ghost prior = ids@;
        proof {
            assert(author_ids(old(self).by_author@, author) == authored(before, author));
            assert(prior.to_set() == authored(before, author));
            assert(!prior.to_set().contains(id));
        }
        ids.push(id);
        let ghost pushed = ids@;
        self.by_author.insert(author.id, ids);
        proof {
            let after = before.insert(id, p);
            assert(pushed == prior.push(id));
            assert(self.by_author@[author.id]@ == pushed);
            assert(authored(after, author) =~= authored(before, author).insert(id));
            assert(pushed.to_set() =~= prior.to_set().insert(id));
            assert forall|a: Address| #[trigger]
                author_ids(self.by_author@, a) == authored(after, a) by {
                assert(author_ids(old(self).by_author@, a) == authored(before, a));
                if a.id == author.id {
                    assert(a == author);
                    assert(author_ids(self.by_author@, a) =~= authored(after, a));
                } else {
                    assert(self.by_author@.contains_key(a.id) == old(self).by_author@.contains_key(
                        a.id,
                    ));
                    if self.by_author@.contains_key(a.id) {
                        assert(self.by_author@[a.id] == old(self).by_author@[a.id]);
                    }
                    assert(author_ids(self.by_author@, a) == author_ids(old(self).by_author@, a));
                    assert(authored(after, a) =~= authored(before, a));
                }
            }
            assert forall|k: u64| #[trigger]
                self.by_author@.contains_key(k) implies self.by_author@[k]@.no_duplicates() by {
                if k == author.id {
                    assert forall|a: int, b: int|
                        0 <= a < self.by_author@[k]@.len() && 0 <= b < self.by_author@[k]@.len()
                            && a != b implies self.by_author@[k]@[a]
                        != self.by_author@[k]@[b] by {
                        if a == prior.len() {
                            assert(prior.contains(prior[b]));
                        } else if b == prior.len() {
                            assert(prior.contains(prior[a]));
                        }
                    }
                }
            }
        }
    }

    #[verifier::spinoff_prover]
    #[verifier::rlimit(100)]
    fn index_tags(
        &mut self,
        tags: &Vec<String>,
        id: u64,
        Ghost(before): Ghost<Map<u64, PostView>>,
        Ghost(p): Ghost<PostView>,
    )
        requires
            tag_index_ok(old(self).by_tag@, before),
            !before.contains_key(id),
            p.tags == texts(tags@),
            texts(tags@).no_duplicates(),
        ensures
            tag_index_ok(final(self).by_tag@, before.insert(id, p)),
            final(self).posts == old(self).posts,
            final(self).order == old(self).order,
            final(self).by_author == old(self).by_author,
            final(self).comments == old(self).comments,
            final(self).last_post_id == old(self).last_post_id,
            final(self).last_comment_seq == old(self).last_comment_seq,
    {
        let mut k: usize = 0;
        assert forall|i: int| 0 <= i < self.by_tag@.len() implies #[trigger]
            self.by_tag@[i].post_ids@.to_set() == partly_tagged(
                before,
                id,
                texts(tags@).take(0),
                self.by_tag@[i].tag@,
            ) by {}
        while k < tags.len()
            invariant
                k <= tags@.len(),
                self.posts == old(self).posts,
                self.order == old(self).order,
                self.by_author == old(self).by_author,
                self.comments == old(self).comments,
                self.last_post_id == old(self).last_post_id,
                self.last_comment_seq == old(self).last_comment_seq,
                !before.contains_key(id),
                texts(tags@).no_duplicates(),
                forall|i: int, j: int|
                    0 <= i < j < self.by_tag@.len() ==> self.by_tag@[i].tag@
                        != self.by_tag@[j].tag@,
                forall|i: int|
                    0 <= i < self.by_tag@.len() ==> #[trigger] self.by_tag@[i].post_ids@.to_set()
                        == partly_tagged(before, id, texts(tags@).take(k as int), self.by_tag@[i].tag@)
                        && self.by_tag@[i].post_ids@.no_duplicates(),
                forall|t: Seq<char>, x: u64| #[trigger]
                    partly_tagged(before, id, texts(tags@).take(k as int), t).contains(x)
                        ==> tag_keys(self.by_tag@).contains(t),
            decreases tags@.len() - k,
        {
            let ghost added = texts(tags@).take(k as int);
            let ghost next = texts(tags@).take(k as int + 1);
            let ghost tk = tags@[k as int]@;
            let ghost keys = tag_keys(self.by_tag@);
            let ghost entries = self.by_tag@;
            proof {
                assert(next == added.push(tk));
                if added.contains(tk) {
                    let i = choose|i: int| 0 <= i < added.len() && added[i] == tk;
                    assert(texts(tags@)[i] == texts(tags@)[k as int]);
                }
                assert(partly_tagged(before, id, added, tk) == tagged(before, tk));
                assert(!tagged(before, tk).contains(id));
            }
            match self.find_tag(&tags[k]) {
                Some(j) => {
                    let ghost prior = self.by_tag@[j as int].post_ids@;
                    proof {
                        assert(prior.to_set() == partly_tagged(before, id, added, entries[j as int].tag@));
                        assert(entries[j as int].tag@ == tk);
                        assert(!prior.to_set().contains(id));
                    }
                    self.by_tag[j].post_ids.push(id);
                    proof {
                        assert(self.by_tag@[j as int].tag@ == tk);
                        assert(self.by_tag@[j as int].post_ids@ == prior.push(id));
                        assert(tag_keys(self.by_tag@) =~= keys);
                        assert(!prior.contains(id));
                        assert forall|i: int| 0 <= i < self.by_tag@.len() implies #[trigger]
                            self.by_tag@[i].post_ids@.to_set() == partly_tagged(
                                before,
                                id,
                                next,
                                self.by_tag@[i].tag@,
                            ) && self.by_tag@[i].post_ids@.no_duplicates() by {
                            if i == j {
                                assert(self.by_tag@[i].post_ids@.to_set() =~= partly_tagged(
                                    before,
                                    id,
                                    next,
                                    tk,
                                ));
                                assert forall|a: int, b: int|
                                    0 <= a < self.by_tag@[i].post_ids@.len() && 0 <= b
                                        < self.by_tag@[i].post_ids@.len() && a != b implies
                                    self.by_tag@[i].post_ids@[a]
                                    != self.by_tag@[i].post_ids@[b] by {
                                    if a == prior.len() {
                                        assert(prior.contains(prior[b]));
                                    } else if b == prior.len() {
                                        assert(prior.contains(prior[a]));
                                    }
                                }
                            } else {
                                assert(self.by_tag@[i] == entries[i]);
                                assert(entries[i].post_ids@.to_set() == partly_tagged(
                                    before,
                                    id,
                                    added,
                                    entries[i].tag@,
                                ));
                                assert(entries[i].tag@ != tk);
                                assert(partly_tagged(before, id, next, entries[i].tag@)
                                    == partly_tagged(before, id, added, entries[i].tag@));
                            }
                        }
                        assert forall|t: Seq<char>, x: u64| #[trigger]
                            partly_tagged(before, id, next, t).contains(
                                x,
                            ) implies tag_keys(self.by_tag@).contains(t) by {
                            if t == tk {
                                assert(tag_keys(self.by_tag@)[j as int] == tk);
                            } else {
                                assert(partly_tagged(before, id, next, t)
                                    == partly_tagged(before, id, added, t));
                            }
                        }
                    }
                },
                None => {
                    let mut ids: Vec<u64> = Vec::new();
                    ids.push(id);
                    self.by_tag.push(TagEntry { tag: tags[k].clone(), post_ids: ids });
                    proof {
                        assert(self.by_tag@[entries.len() as int].tag@ == tk);
                        assert(self.by_tag@[entries.len() as int].post_ids@ == seq![id]);
                        assert(tag_keys(self.by_tag@) =~= keys.push(tk));
                        assert forall|x: u64| !#[trigger] tagged(before, tk).contains(x) by {
                            if tagged(before, tk).contains(x) {
                                assert(partly_tagged(before, id, added, tk).contains(x));
                            }
                        }
                        assert forall|i: int| 0 <= i < self.by_tag@.len() implies #[trigger]
                            self.by_tag@[i].post_ids@.to_set() == partly_tagged(
                                before,
                                id,
                                next,
                                self.by_tag@[i].tag@,
                            ) && self.by_tag@[i].post_ids@.no_duplicates() by {
                            if i == entries.len() {
                                assert(self.by_tag@[i].post_ids@.to_set() =~= partly_tagged(
                                    before,
                                    id,
                                    next,
                                    tk,
                                ));
                            } else {
                                assert(self.by_tag@[i] == entries[i]);
                                assert(entries[i].post_ids@.to_set() == partly_tagged(
                                    before,
                                    id,
                                    added,
                                    entries[i].tag@,
                                ));
                                assert(keys[i] == entries[i].tag@);
                                assert(entries[i].tag@ != tk);
                                assert(partly_tagged(before, id, next, entries[i].tag@)
                                    == partly_tagged(before, id, added, entries[i].tag@));
                            }
                        }
                        assert forall|i: int, j: int|
                            0 <= i < j < self.by_tag@.len() implies self.by_tag@[i].tag@
                            != self.by_tag@[j].tag@ by {
                            if j == entries.len() {
                                assert(keys[i] == entries[i].tag@);
                            }
                        }
                        assert forall|t: Seq<char>, x: u64| #[trigger]
                            partly_tagged(before, id, next, t).contains(
                                x,
                            ) implies tag_keys(self.by_tag@).contains(t) by {
                            if t == tk {
                                assert(tag_keys(self.by_tag@)[entries.len() as int] == tk);
                            } else {
                                assert(partly_tagged(before, id, next, t)
                                    == partly_tagged(before, id, added, t));
                                assert(keys.contains(t));
                                let i = choose|i: int| 0 <= i < keys.len() && keys[i] == t;
                                assert(tag_keys(self.by_tag@)[i] == t);
                            }
                        }
                    }
                },
            }
            k += 1;
        }
        proof {
            let after = before.insert(id, p);
            let all = texts(tags@).take(tags@.len() as int);
            assert(all == texts(tags@));
            assert forall|i: int| 0 <= i < self.by_tag@.len() implies #[trigger]
                self.by_tag@[i].post_ids@.to_set() == tagged(after, self.by_tag@[i].tag@)
                    && self.by_tag@[i].post_ids@.no_duplicates() by {
                assert(partly_tagged(before, id, all, self.by_tag@[i].tag@) =~= tagged(
                    after,
                    self.by_tag@[i].tag@,
                ));
            }
            assert forall|t: Seq<char>, x: u64| #[trigger]
                tagged(after, t).contains(x) implies tag_keys(self.by_tag@).contains(t) by {
                assert(partly_tagged(before, id, all, t) =~= tagged(after, t));
            }
        }
    }

    fn unindex_author(&mut self, author: Address, id: u64, Ghost(before): Ghost<Map<u64, PostView>>)
        requires
            author_index_ok(old(self).by_author@, before),
            before.contains_key(id),
            before[id].author == author,
        ensures
            author_index_ok(final(self).by_author@, before.remove(id)),
            final(self).posts == old(self).posts,
            final(self).order == old(self).order,
            final(self).by_tag == old(self).by_tag,
            final(self).comments == old(self).comments,
            final(self).last_post_id == old(self).last_post_id,
            final(self).last_comment_seq == old(self).last_comment_seq,
    {
        let ghost after = before.remove(id);
        match self.by_author.get(&author.id) {
            Some(v) => {
                let ids = without(v, id);
                let ghost kept = ids@;
                proof {
                    assert(author_ids(old(self).by_author@, author) == authored(before, author));
                    assert(v@.to_set() == authored(before, author));
                    assert forall|y: u64| #[trigger]
                        kept.to_set().contains(y) == authored(after, author).contains(y) by {
                        assert(v@.to_set().contains(y) == v@.contains(y));
                    }
                    assert(kept.to_set() =~= authored(after, author));
                }
                self.by_author.insert(author.id, ids);
                proof {
                    assert(self.by_author@[author.id]@ == kept);
                }
            },
            None => {
                proof {
                    assert(authored(before, author).contains(id));
                    assert(author_ids(old(self).by_author@, author) == authored(before, author));
                }
            },
        }
        proof {
            assert forall|a: Address| #[trigger]
                author_ids(self.by_author@, a) == authored(after, a) by {
                assert(author_ids(old(self).by_author@, a) == authored(before, a));
                if a.id == author.id {
                    assert(a == author);
                    assert(author_ids(self.by_author@, a) =~= authored(after, a));
                } else {
                    assert(self.by_author@.contains_key(a.id) == old(self).by_author@.contains_key(
                        a.id,
                    ));
                    if self.by_author@.contains_key(a.id) {
                        assert(self.by_author@[a.id] == old(self).by_author@[a.id]);
                    }
                    assert(author_ids(self.by_author@, a) == author_ids(old(self).by_author@, a));
                    assert(authored(after, a) =~= authored(before, a));
                }
            }
        }
    }

    #[verifier::spinoff_prover]
    #[verifier::rlimit(50)]
    fn unindex_tags(&mut self, id: u64, Ghost(before): Ghost<Map<u64, PostView>>)
        requires
            tag_index_ok(old(self).by_tag@, before),
        ensures
            tag_index_ok(final(self).by_tag@, before.remove(id)),
            final(self).posts == old(self).posts,
            final(self).order == old(self).order,
            final(self).by_author == old(self).by_author,
            final(self).comments == old(self).comments,
            final(self).last_post_id == old(self).last_post_id,
            final(self).last_comment_seq == old(self).last_comment_seq,
    {
        let ghost entries = self.by_tag@;
        let ghost after = before.remove(id);
        let mut k: usize = 0;
        while k < self.by_tag.len()
            invariant
                k <= self.by_tag@.len(),
                self.by_tag@.len() == entries.len(),
                self.posts == old(self).posts,
                self.order == old(self).order,
                self.by_author == old(self).by_author,
                self.comments == old(self).comments,
                self.last_post_id == old(self).last_post_id,
                self.last_comment_seq == old(self).last_comment_seq,
                tag_index_ok(entries, before),
                after == before.remove(id),
                forall|i: int| 0 <= i < entries.len() ==> #[trigger] self.by_tag@[i].tag@ == entries[i].tag@,
                forall|i: int| k <= i < entries.len() ==> #[trigger] self.by_tag@[i] == entries[i],
                forall|i: int|
                    0 <= i < k ==> #[trigger] self.by_tag@[i].post_ids@.to_set() == tagged(
                        after,
                        self.by_tag@[i].tag@,
                    ) && self.by_tag@[i].post_ids@.no_duplicates(),
            decreases entries.len() - k,
        {
            let filtered = without(&self.by_tag[k].post_ids, id);
            let ghost kept = filtered@;
            proof {
                assert(self.by_tag@[k as int] == entries[k as int]);
                assert(entries[k as int].post_ids@.to_set() == tagged(before, entries[k as int].tag@));
            }
            let ghost prev = self.by_tag@;
            self.by_tag[k].post_ids = filtered;
            proof {
                assert(self.by_tag@[k as int].post_ids@ == kept);
                let t = entries[k as int].tag@;
                assert forall|y: u64| #[trigger]
                    kept.to_set().contains(y) == tagged(after, t).contains(y) by {
                    assert(entries[k as int].post_ids@.to_set().contains(y)
                        == entries[k as int].post_ids@.contains(y));
                }
                assert(kept.to_set() =~= tagged(after, t));
                assert(entries[k as int].post_ids@.no_duplicates());
                assert forall|i: int| 0 <= i < k + 1 implies #[trigger]
                    self.by_tag@[i].post_ids@.to_set() == tagged(after, self.by_tag@[i].tag@)
                        && self.by_tag@[i].post_ids@.no_duplicates() by {
                    if i < k {
                        assert(self.by_tag@[i] == prev[i]);
                    }
                }
            }
            k += 1;
        }
        proof {
            assert(tag_keys(self.by_tag@) =~= tag_keys(entries));
            assert forall|t: Seq<char>, x: u64| #[trigger]
                tagged(after, t).contains(x) implies tag_keys(self.by_tag@).contains(t) by {
                assert(tagged(before, t).contains(x));
            }
        }
    }

    fn remove_comments_of(&mut self, post_id: u64)
        ensures
            final(self).comments() == comments_off(old(self).comments(), post_id),
            final(self).posts == old(self).posts,
            final(self).order == old(self).order,
            final(self).by_author == old(self).by_author,
            final(self).by_tag == old(self).by_tag,
            final(self).last_post_id == old(self).last_post_id,
            final(self).last_comment_seq == old(self).last_comment_seq,
    {
        let mut kept: Vec<Comment> = Vec::new();
        let mut i: usize = 0;
        while i < self.comments.len()
            invariant
                i <= self.comments@.len(),
                kept@.map_values(|c: Comment| c@) == comments_off(
                    self.comments().take(i as int),
                    post_id,
                ),
            decreases self.comments@.len() - i,
        {
            let ghost before = kept@.map_values(|c: Comment| c@);
            assert(self.comments().take(i as int + 1).drop_last() == self.comments().take(i as int));
            if self.comments[i].post_id != post_id {
                kept.push(self.comments[i].duplicate());
                assert(kept@.map_values(|c: Comment| c@) =~= before.push(self.comments@[i as int]@));
            }
            i += 1;
        }
        assert(self.comments().take(self.comments@.len() as int) == self.comments());
        self.comments = kept;
    }

    fn posts_with_ids(&self, ids: &Vec<u64>) -> (r: Vec<Post>)
        requires
            self.wf(),
            forall|i: int| 0 <= i < ids@.len() ==> self.posts().contains_key(#[trigger] ids@[i]),
        ensures
            ids_of(r@) == ids@,
            forall|i: int|
                0 <= i < r@.len() ==> self.posts().contains_key(#[trigger] r@[i].id) && r@[i]@
                    == self.posts()[r@[i].id],
    {
        let mut r: Vec<Post> = Vec::new();
        let mut i: usize = 0;
        while i < ids.len()
            invariant
                i <= ids@.len(),
                self.wf(),
                forall|j: int| 0 <= j < ids@.len() ==> self.posts().contains_key(#[trigger] ids@[j]),
                ids_of(r@) == ids@.take(i as int),
                forall|j: int|
                    0 <= j < r@.len() ==> self.posts().contains_key(#[trigger] r@[j].id) && r@[j]@
                        == self.posts()[r@[j].id],
            decreases ids@.len() - i,
        {
            let ghost before = r@;
            assert(self.posts().contains_key(ids@[i as int]));
            match self.posts.get(&ids[i]) {
                Some(p) => {
                    assert(self.posts@.contains_key(ids@[i as int]));
                    assert(p.id == ids@[i as int]);
                    r.push(p.duplicate());
                    assert(ids@.take(i as int + 1) == ids@.take(i as int).push(ids@[i as int]));
                    assert(ids_of(r@) =~= ids_of(before).push(ids@[i as int]));
                },
                None => {},
            }
            i += 1;
        }
        assert(ids@.take(ids@.len() as int) == ids@);
        r
    }

    fn replace_post(&mut self, p: Post)
        requires
            old(self).wf(),
            old(self).posts().contains_key(p.id),
            old(self).posts()[p.id].author == p@.author,
            old(self).posts()[p.id].tags == p@.tags,
            p.likes == p.likers@.len(),
        ensures
            final(self).wf(),
            post_replaced(*old(self), *final(self), p.id, p@),
    {
        let ghost before = self.posts();
        let ghost v = p@;
        let id = p.id;
        self.posts.insert(id, p);
        proof {
            assert(self.posts() =~= before.insert(id, v));
            assert(self.posts().dom() =~= before.dom());
            lemma_same_index_fields(before, self.posts());
            assert(self.comments() == old(self).comments());
            assert forall|i: int| 0 <= i < self.comments().len() implies self.posts().contains_key(
                #[trigger] self.comments()[i].post_id,
            ) by {
                assert(before.contains_key(old(self).comments()[i].post_id));
            }
        }
    }

    /// The post with this id, if it exists and was not deleted.
    pub fn get_post(&self, id: u64) -> (r: Option<Post>)
        ensures
            match r {
                Some(p) => self.posts().contains_key(id) && p@ == self.posts()[id],
                None => !self.posts().contains_key(id),
            },
    {
        match self.posts.get(&id) {
            Some(p) => Some(p.duplicate()),
            None => None,
        }
    }

    /// Counts one more like by `liker`; likes are not deduplicated per address.
    pub fn like_post(&mut self, post_id: u64, liker: Address) -> (r: Result<Post, ContractError>)
        requires
            old(self).wf(),
        ensures
            final(self).wf(),
            match r {
                Ok(p) => {
                    &&& old(self).posts().contains_key(post_id)
                    &&& p@ == liked(old(self).posts()[post_id], liker)
                    &&& post_replaced(*old(self), *final(self), post_id, p@)
                },
                Err(e) => {
                    &&& !old(self).posts().contains_key(post_id)
                    &&& e == ContractError::NotFound
                    &&& *final(self) == *old(self)
                },
            },
    {
        let mut p = match self.get_post(post_id) {
            Some(p) => p,
            None => return Err(ContractError::NotFound),
        };
        proof {
            assert(self.posts@.contains_key(post_id));
        }
        if p.likes < u32::MAX {
            p.likes = p.likes + 1;
            p.likers.push(liker);
        }
        self.replace_post(p.duplicate());
        Ok(p)
    }

    /// Takes one like back, never going below zero; no earlier like by the
    /// same address is needed.
    pub fn unlike_post(&mut self, post_id: u64, liker: Address) -> (r: Result<Post, ContractError>)
        requires
            old(self).wf(),
        ensures
            final(self).wf(),
            match r {
                Ok(p) => {
                    &&& old(self).posts().contains_key(post_id)
                    &&& p@ == unliked(old(self).posts()[post_id], liker)
                    &&& post_replaced(*old(self), *final(self), post_id, p@)
                },
                Err(e) => {
                    &&& !old(self).posts().contains_key(post_id)
                    &&& e == ContractError::NotFound
                    &&& *final(self) == *old(self)
                },
            },
    {
        let mut p = match self.get_post(post_id) {
            Some(p) => p,
            None => return Err(ContractError::NotFound),
        };
        proof {
            assert(self.posts@.contains_key(post_id));
        }
        if p.likes > 0 {
            p.likes = p.likes - 1;
            let ghost before = p.likers@;
            match last_index(&p.likers, liker) {
                Some(j) => {
                    p.likers.remove(j);
                    proof {
                        lemma_withdrawn_at(before, liker, j as int);
                    }
                },
                None => {
                    p.likers.pop();
                },
            }
        }
        self.replace_post(p.duplicate());
        Ok(p)
    }

    /// Appends a comment to an existing post and counts it on the post.
    pub fn add_comment(
        &mut self,
        post_id: u64,
        author: Address,
        content: String,
        anonymous: bool,
    ) -> (r: Result<Comment, ContractError>)
        requires
            old(self).wf(),
        ensures
            final(self).wf(),
            match r {
                Ok(c) => {
                    &&& old(self).posts().contains_key(post_id)
                    &&& content@.len() > 0
                    &&& old(self).last_comment_seq() < u64::MAX
                    &&& c@ == (CommentView {
                        post_id,
                        author,
                        content: content@,
                        anonymous,
                        sequence: (old(self).last_comment_seq() + 1) as u64,
                    })
                    &&& final(self).comments() == old(self).comments().push(c@)
                    &&& final(self).last_comment_seq() == c.sequence
                    &&& final(self).posts() == old(self).posts().insert(
                        post_id,
                        PostView {
                            comments: incremented(old(self).posts()[post_id].comments),
                            ..old(self).posts()[post_id]
                        },
                    )
                    &&& final(self).order() == old(self).order()
                    &&& final(self).last_post_id() == old(self).last_post_id()
                },
                Err(e) => {
                    &&& *final(self) == *old(self)
                    &&& if !old(self).posts().contains_key(post_id) {
                        e == ContractError::NotFound
                    } else {
                        &&& content@.len() == 0 || old(self).last_comment_seq() == u64::MAX
                        &&& e == ContractError::InvalidInput
                    }
                },
            },
    {
        let mut p = match self.get_post(post_id) {
            Some(p) => p,
            None => return Err(ContractError::NotFound),
        };
        if content.as_str().is_empty() || self.last_comment_seq == u64::MAX {
            return Err(ContractError::InvalidInput);
        }
        proof {
            assert(self.posts@.contains_key(post_id));
        }
        if p.comments < u32::MAX {
            p.comments = p.comments + 1;
        }
        self.replace_post(p);
        let sequence = self.last_comment_seq + 1;
        let c = Comment { post_id, author, content, anonymous, sequence };
        let ghost before = self.comments();
        self.comments.push(c.duplicate());
        self.last_comment_seq = sequence;
        assert(self.comments() =~= before.push(c@));
        Ok(c)
    }

    /// The post's comments in the order they were added; empty if none.
    pub fn get_post_comments(&self, post_id: u64) -> (r: Vec<Comment>)
        ensures
            r@.map_values(|c: Comment| c@) == comments_on(self.comments(), post_id),
    {
        let mut r: Vec<Comment> = Vec::new();
        let mut i: usize = 0;
        while i < self.comments.len()
            invariant
                i <= self.comments@.len(),
                r@.map_values(|c: Comment| c@) == comments_on(
                    self.comments().take(i as int),
                    post_id,
                ),
            decreases self.comments@.len() - i,
        {
            let ghost before = r@.map_values(|c: Comment| c@);
            assert(self.comments().take(i as int + 1).drop_last() == self.comments().take(i as int));
            if self.comments[i].post_id == post_id {
                r.push(self.comments[i].duplicate());
                assert(r@.map_values(|c: Comment| c@) =~= before.push(self.comments@[i as int]@));
            }
            i += 1;
        }
        assert(self.comments().take(self.comments@.len() as int) == self.comments());
        r
    }

    /// The live posts that carry `tag`, found through the tag index; empty
    /// when none does.
    pub fn search_posts(&self, tag: &str) -> (r: Vec<Post>)
        requires
            self.wf(),
        ensures
            lists_posts(r@, self.posts(), tagged(self.posts(), tag@)),
    {
        let name = tag.to_owned();
        match self.find_tag(&name) {
            Some(j) => {
                let ids = &self.by_tag[j].post_ids;
                proof {
                    assert(ids@.to_set() == tagged(self.posts(), tag@));
                    assert forall|i: int| 0 <= i < ids@.len() implies self.posts().contains_key(
                        #[trigger] ids@[i],
                    ) by {
                        assert(ids@.to_set().contains(ids@[i]));
                    }
                }
                self.posts_with_ids(ids)
            },
            None => {
                proof {
                    assert(tagged(self.posts(), tag@) =~= Set::empty());
                }
                let r: Vec<Post> = Vec::new();
                assert(ids_of(r@).to_set() =~= Set::empty());
                r
            },
        }
    }

    /// The live posts written by `author`, found through the author index.
    pub fn get_user_posts(&self, author: Address) -> (r: Vec<Post>)
        requires
            self.wf(),
        ensures
            lists_posts(r@, self.posts(), authored(self.posts(), author)),
    {
        assert(author_ids(self.by_author@, author) == authored(self.posts(), author));
        match self.by_author.get(&author.id) {
            Some(ids) => {
                proof {
                    assert forall|i: int| 0 <= i < ids@.len() implies self.posts().contains_key(
                        #[trigger] ids@[i],
                    ) by {
                        assert(ids@.to_set().contains(ids@[i]));
                    }
                }
                self.posts_with_ids(ids)
            },
            None => {
                let r: Vec<Post> = Vec::new();
                assert(ids_of(r@).to_set() =~= Set::empty());
                r
            },
        }
    }

    /// Every live post, in the order the posts were created.
    pub fn get_all_posts(&self) -> (r: Vec<Post>)
        requires
            self.wf(),
        ensures
            lists_posts(r@, self.posts(), self.posts().dom()),
            ids_of(r@) == self.order(),
    {
        proof {
            assert forall|i: int| 0 <= i < self.order@.len() implies self.posts().contains_key(
                #[trigger] self.order@[i],
            ) by {
                assert(self.order@.contains(self.order@[i]));
            }
        }
        let r = self.posts_with_ids(&self.order);
        assert(self.order@.to_set() =~= self.posts().dom());
        r
    }

    /// Deletes a post on its author's request, with its comments and every
    /// index entry that leads to it.
    pub fn delete_post(&mut self, post_id: u64, requester: Address) -> (r: Result<(), ContractError>)
        requires
            old(self).wf(),
        ensures
            final(self).wf(),
            match r {
                Ok(()) => {
                    &&& old(self).posts().contains_key(post_id)
                    &&& old(self).posts()[post_id].author == requester
                    &&& final(self).posts() == old(self).posts().remove(post_id)
                    &&& final(self).comments() == comments_off(old(self).comments(), post_id)
                    &&& forall|x: u64| #[trigger]
                        final(self).order().contains(x) <==> old(self).order().contains(x) && x
                            != post_id
                    &&& final(self).last_post_id() == old(self).last_post_id()
                    &&& final(self).last_comment_seq() == old(self).last_comment_seq()
                },
                Err(e) => {
                    &&& *final(self) == *old(self)
                    &&& if !old(self).posts().contains_key(post_id) {
                        e == ContractError::NotFound
                    } else {
                        &&& old(self).posts()[post_id].author != requester
                        &&& e == ContractError::Unauthorized
                    }
                },
            },
    {
        let author = match self.posts.get(&post_id) {
            Some(p) => p.author,
            None => return Err(ContractError::NotFound),
        };
        if author != requester {
            return Err(ContractError::Unauthorized);
        }
        let ghost before = self.posts();
        self.unindex_author(author, post_id, Ghost(before));
        self.unindex_tags(post_id, Ghost(before));
        self.posts.remove(&post_id);
        self.order = without(&self.order, post_id);
        let ghost old_comments = self.comments();
        self.remove_comments_of(post_id);
        assert(self.posts() =~= before.remove(post_id));
        proof {
            assert forall|i: int| 0 <= i < self.comments().len() implies self.posts().contains_key(
                #[trigger] self.comments()[i].post_id,
            ) by {
                lemma_comments_off_kept(old_comments, post_id, i);
                let k = choose|k: int|
                    0 <= k < old_comments.len() && old_comments[k] == self.comments()[i];
                assert(old_comments == old(self).comments());
                assert(before == old(self).posts());
                assert(old(self).posts().contains_key(old(self).comments()[k].post_id));
            }
        }
        Ok(())
    }

    fn insert_post(
        &mut self,
        author: Address,
        content: String,
        tags: Vec<String>,
        timestamp: u64,
        anonymous: bool,
    ) -> (r: Result<Post, ContractError>)
        requires
            old(self).wf(),
        ensures
            final(self).wf(),
            created(*old(self), *final(self), r, author, content@, texts(tags@), timestamp, anonymous),
    {
        let ghost old_tags = tags@;
        let tags = distinct_texts(&tags);
        proof {
            distinct_tags_properties(texts(old_tags));
        }
        if content.as_str().is_empty() || tags.len() > MAX_TAGS || self.last_post_id == u64::MAX {
            return Err(ContractError::InvalidInput);
        }
        let id = self.last_post_id + 1;
        let post = Post {
            id,
            author,
            content,
            tags,
            timestamp,
            likes: 0,
            likers: Vec::new(),
            comments: 0,
            anonymous,
        };
        let ghost before = self.posts();
        let ghost pv = post@;
        proof {
            assert(!self.posts@.contains_key(id));
            assert(!self.order@.contains(id));
        }
        self.posts.insert(id, post.duplicate());
        self.last_post_id = id;
        self.order.push(id);
        self.index_author(author, id, Ghost(before), Ghost(pv));
        self.index_tags(&post.tags, id, Ghost(before), Ghost(pv));
        proof {
            assert(self.posts() =~= before.insert(id, pv));
            assert(self.comments() == old(self).comments());
            assert forall|i: int| 0 <= i < self.comments().len() implies self.posts().contains_key(
                #[trigger] self.comments()[i].post_id,
            ) by {
                assert(before.contains_key(old(self).comments()[i].post_id));
            }
            assert forall|a: int, b: int|
                0 <= a < self.order@.len() && 0 <= b < self.order@.len() && a != b implies
                self.order@[a] != self.order@[b] by {
                if a == old(self).order@.len() {
                    assert(old(self).order@.contains(old(self).order@[b]));
                } else if b == old(self).order@.len() {
                    assert(old(self).order@.contains(old(self).order@[a]));
                }
            }
        }
        Ok(post)
    }

    /// Creates a post signed by its author.
    pub fn create_post(&mut self, author: Address, content: String, tags: Vec<String>, timestamp: u64) -> (r:
        Result<Post, ContractError>)
        requires
            old(self).wf(),
        ensures
            final(self).wf(),
            created(*old(self), *final(self), r, author, content@, texts(tags@), timestamp, false),
    {
        self.insert_post(author, content, tags, timestamp, false)
    }

    /// Creates a post whose author is kept but not shown.
    pub fn create_anonymous_post(
        &mut self,
        author: Address,
        content: String,
        tags: Vec<String>,
        timestamp: u64,
    ) -> (r: Result<Post, ContractError>)
        requires
            old(self).wf(),
        ensures
            final(self).wf(),
            created(*old(self), *final(self), r, author, content@, texts(tags@), timestamp, true),
    {
        self.insert_post(author, content, tags, timestamp, true)
    }
}

} // verus!
