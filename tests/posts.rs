use smart_contracts::posts::{PostContract, MAX_TAGS};
use smart_contracts::types::{Address, ContractError};

fn text(s: &str) -> String {
    s.to_string()
}

fn tag_list(tags: &[&str]) -> Vec<String> {
    tags.iter().map(|t| t.to_string()).collect()
}

#[test]
fn test_create_post() {
    let mut c = PostContract::new();
    let author = Address::new(1);
    let post = c
        .create_post(
            author,
            text("Hello, this is my first anonymous post!"),
            tag_list(&["general", "introduction"]),
            0,
        )
        .unwrap();
    assert_eq!(post.author, author);
    assert_eq!(post.content, "Hello, this is my first anonymous post!");
    assert_eq!(post.likes, 0);
    assert_eq!(post.comments, 0);
    assert_eq!(post.tags.len(), 2);
    assert!(!post.anonymous);
}

#[test]
fn test_create_anonymous_post() {
    let mut c = PostContract::new();
    let author = Address::new(1);
    let post = c
        .create_anonymous_post(
            author,
            text("This is an anonymous post about blockchain technology"),
            tag_list(&["blockchain", "technology"]),
            0,
        )
        .unwrap();
    assert_eq!(post.author, author);
    assert_eq!(post.content, "This is an anonymous post about blockchain technology");
    assert!(post.anonymous);
    assert_eq!(post.tags.len(), 2);
}

#[test]
fn test_get_post() {
    let mut c = PostContract::new();
    let author = Address::new(1);
    let created = c.create_post(author, text("Test post content"), tag_list(&["test"]), 0).unwrap();
    let retrieved = c.get_post(created.id).unwrap();
    assert_eq!(retrieved.id, created.id);
    assert_eq!(retrieved.author, created.author);
    assert_eq!(retrieved.content, created.content);
    assert_eq!(retrieved.likes, created.likes);
    assert_eq!(retrieved.comments, created.comments);
}

#[test]
fn test_get_nonexistent_post() {
    let c = PostContract::new();
    let post = c.get_post(999);
    assert!(post.is_none());
}

#[test]
fn test_like_post() {
    let mut c = PostContract::new();
    let author = Address::new(1);
    let liker = Address::new(2);
    let post = c.create_post(author, text("Post to like"), tag_list(&["test"]), 0).unwrap();
    assert_eq!(post.likes, 0);
    let liked = c.like_post(post.id, liker).unwrap();
    assert_eq!(liked.likes, 1);
    let liked_again = c.like_post(post.id, liker).unwrap();
    assert_eq!(liked_again.likes, 2);
}

#[test]
fn test_unlike_post() {
    let mut c = PostContract::new();
    let author = Address::new(1);
    let liker = Address::new(2);
    let post = c.create_post(author, text("Post to unlike"), tag_list(&["test"]), 0).unwrap();
    c.like_post(post.id, liker).unwrap();
    let unliked = c.unlike_post(post.id, liker).unwrap();
    assert_eq!(unliked.likes, 0);
}

#[test]
fn test_add_comment() {
    let mut c = PostContract::new();
    let author = Address::new(1);
    let commenter = Address::new(2);
    let post = c.create_post(author, text("Post with comments"), tag_list(&["test"]), 0).unwrap();
    assert_eq!(post.comments, 0);
    let comment = c.add_comment(post.id, commenter, text("Great post!"), false).unwrap();
    assert_eq!(comment.post_id, post.id);
    assert_eq!(comment.author, commenter);
    assert_eq!(comment.content, "Great post!");
    assert!(!comment.anonymous);
    let updated = c.get_post(post.id).unwrap();
    assert_eq!(updated.comments, 1);
}

#[test]
fn test_add_anonymous_comment() {
    let mut c = PostContract::new();
    let author = Address::new(1);
    let commenter = Address::new(2);
    let post =
        c.create_post(author, text("Post for anonymous comment"), tag_list(&["test"]), 0).unwrap();
    let comment = c.add_comment(post.id, commenter, text("Anonymous comment"), true).unwrap();
    assert!(comment.anonymous);
    assert_eq!(comment.content, "Anonymous comment");
}

#[test]
fn test_get_post_comments() {
    let mut c = PostContract::new();
    let author = Address::new(1);
    let commenter1 = Address::new(2);
    let commenter2 = Address::new(3);
    let post =
        c.create_post(author, text("Post with multiple comments"), tag_list(&["test"]), 0).unwrap();
    c.add_comment(post.id, commenter1, text("First comment"), false).unwrap();
    c.add_comment(post.id, commenter2, text("Second comment"), false).unwrap();
    let comments = c.get_post_comments(post.id);
    assert_eq!(comments.len(), 2);
    assert_eq!(comments[0].content, "First comment");
    assert_eq!(comments[1].content, "Second comment");
}

#[test]
fn test_search_posts() {
    let mut c = PostContract::new();
    let author1 = Address::new(1);
    let author2 = Address::new(2);
    c.create_post(
        author1,
        text("Post about blockchain technology"),
        tag_list(&["blockchain", "technology"]),
        0,
    )
    .unwrap();
    c.create_post(author2, text("Post about cooking recipes"), tag_list(&["cooking", "recipes"]), 0)
        .unwrap();
    c.create_post(
        author1,
        text("Another post about blockchain"),
        tag_list(&["blockchain", "crypto"]),
        0,
    )
    .unwrap();
    let blockchain_posts = c.search_posts("blockchain");
    assert_eq!(blockchain_posts.len(), 2);
    let cooking_posts = c.search_posts("cooking");
    assert_eq!(cooking_posts.len(), 1);
}

#[test]
fn test_get_user_posts() {
    let mut c = PostContract::new();
    let author = Address::new(1);
    c.create_post(author, text("First post"), tag_list(&["first"]), 0).unwrap();
    c.create_post(author, text("Second post"), tag_list(&["second"]), 0).unwrap();
    c.create_post(author, text("Third post"), tag_list(&["third"]), 0).unwrap();
    let user_posts = c.get_user_posts(author);
    assert_eq!(user_posts.len(), 3);
    for post in user_posts.iter() {
        assert_eq!(post.author, author);
    }
}

#[test]
fn test_delete_post() {
    let mut c = PostContract::new();
    let author = Address::new(1);
    let post = c.create_post(author, text("Post to delete"), tag_list(&["test"]), 0).unwrap();
    assert!(c.get_post(post.id).is_some());
    c.delete_post(post.id, author).unwrap();
    assert!(c.get_post(post.id).is_none());
}

#[test]
fn test_get_all_posts() {
    let mut c = PostContract::new();
    let author1 = Address::new(1);
    let author2 = Address::new(2);
    c.create_post(author1, text("Post 1"), tag_list(&["test"]), 0).unwrap();
    c.create_post(author2, text("Post 2"), tag_list(&["test"]), 0).unwrap();
    let all_posts = c.get_all_posts();
    assert_eq!(all_posts.len(), 2);
}

#[test]
fn post_ids_count_up_from_one() {
    let mut c = PostContract::new();
    let a = Address::new(1);
    let p1 = c.create_post(a, text("one"), tag_list(&[]), 5).unwrap();
    let p2 = c.create_post(a, text("two"), tag_list(&[]), 6).unwrap();
    assert_eq!(p1.id, 1);
    assert_eq!(p2.id, 2);
    assert_eq!(p2.timestamp, 6);
    c.delete_post(p1.id, a).unwrap();
    let p3 = c.create_post(a, text("three"), tag_list(&[]), 7).unwrap();
    assert_eq!(p3.id, 3);
    let all: Vec<u64> = c.get_all_posts().iter().map(|p| p.id).collect();
    assert_eq!(all, vec![2, 3]);
}

#[test]
fn create_post_rejects_empty_content() {
    let mut c = PostContract::new();
    let r = c.create_post(Address::new(1), text(""), tag_list(&["x"]), 0);
    assert_eq!(r.unwrap_err(), ContractError::InvalidInput);
    assert!(c.get_all_posts().is_empty());
}

#[test]
fn create_post_drops_repeated_tags() {
    let mut c = PostContract::new();
    let p = c.create_post(Address::new(1), text("hi"), tag_list(&["b", "a", "b", "a", "c"]), 0).unwrap();
    assert_eq!(p.tags, tag_list(&["b", "a", "c"]));
    assert_eq!(c.get_post(p.id).unwrap().tags, tag_list(&["b", "a", "c"]));
    assert_eq!(c.search_posts("a").len(), 1);
    assert_eq!(c.search_posts("b").len(), 1);
    assert_eq!(c.get_user_posts(Address::new(1)).len(), 1);
}

#[test]
fn create_post_tag_limit() {
    let mut c = PostContract::new();
    let most: Vec<String> = (0..MAX_TAGS).map(|i| format!("t{}", i)).collect();
    assert!(c.create_post(Address::new(1), text("ok"), most, 0).is_ok());
    let mut repeated: Vec<String> = (0..MAX_TAGS).map(|i| format!("t{}", i)).collect();
    repeated.push("t0".to_string());
    let p = c.create_post(Address::new(1), text("repeats"), repeated, 0).unwrap();
    assert_eq!(p.tags.len(), MAX_TAGS);
    let too_many: Vec<String> = (0..MAX_TAGS + 1).map(|i| format!("t{}", i)).collect();
    let r = c.create_post(Address::new(1), text("too many"), too_many, 0);
    assert_eq!(r.unwrap_err(), ContractError::InvalidInput);
}

#[test]
fn likes_floor_at_zero() {
    let mut c = PostContract::new();
    let a = Address::new(1);
    let p = c.create_post(a, text("p"), tag_list(&[]), 0).unwrap();
    assert_eq!(c.unlike_post(p.id, a).unwrap().likes, 0);
    c.like_post(p.id, a).unwrap();
    c.like_post(p.id, Address::new(2)).unwrap();
    c.like_post(p.id, a).unwrap();
    assert_eq!(c.unlike_post(p.id, Address::new(9)).unwrap().likes, 2);
    assert_eq!(c.get_post(p.id).unwrap().likes, 2);
}

#[test]
fn like_missing_post_is_not_found() {
    let mut c = PostContract::new();
    assert_eq!(c.like_post(4, Address::new(1)).unwrap_err(), ContractError::NotFound);
    assert_eq!(c.unlike_post(4, Address::new(1)).unwrap_err(), ContractError::NotFound);
}

#[test]
fn tag_index_follows_creation_and_deletion() {
    let mut c = PostContract::new();
    let a = Address::new(1);
    let p1 = c.create_post(a, text("p1"), tag_list(&["rust", "verus"]), 0).unwrap();
    let p2 = c.create_post(a, text("p2"), tag_list(&["rust"]), 0).unwrap();
    let ids = |v: Vec<smart_contracts::posts::Post>| {
        let mut ids: Vec<u64> = v.iter().map(|p| p.id).collect();
        ids.sort();
        ids
    };
    assert_eq!(ids(c.search_posts("rust")), vec![p1.id, p2.id]);
    assert_eq!(ids(c.search_posts("verus")), vec![p1.id]);
    c.delete_post(p1.id, a).unwrap();
    assert_eq!(ids(c.search_posts("rust")), vec![p2.id]);
    assert!(c.search_posts("verus").is_empty());
}

#[test]
fn search_without_matches_is_empty() {
    let mut c = PostContract::new();
    assert!(c.search_posts("nothing").is_empty());
    c.create_post(Address::new(1), text("p"), tag_list(&["something"]), 0).unwrap();
    assert!(c.search_posts("nothing").is_empty());
}

#[test]
fn user_posts_follow_deletion() {
    let mut c = PostContract::new();
    let a = Address::new(1);
    let b = Address::new(2);
    let p1 = c.create_post(a, text("a1"), tag_list(&[]), 0).unwrap();
    let p2 = c.create_post(b, text("b1"), tag_list(&[]), 0).unwrap();
    let p3 = c.create_post(a, text("a2"), tag_list(&[]), 0).unwrap();
    c.delete_post(p1.id, a).unwrap();
    let mine: Vec<u64> = c.get_user_posts(a).iter().map(|p| p.id).collect();
    assert_eq!(mine, vec![p3.id]);
    let theirs: Vec<u64> = c.get_user_posts(b).iter().map(|p| p.id).collect();
    assert_eq!(theirs, vec![p2.id]);
    assert!(c.get_user_posts(Address::new(3)).is_empty());
}

#[test]
fn delete_by_non_author_is_unauthorized() {
    let mut c = PostContract::new();
    let a = Address::new(1);
    let p = c.create_post(a, text("mine"), tag_list(&["keep"]), 0).unwrap();
    assert_eq!(c.delete_post(p.id, Address::new(2)).unwrap_err(), ContractError::Unauthorized);
    assert!(c.get_post(p.id).is_some());
    assert_eq!(c.search_posts("keep").len(), 1);
    assert_eq!(c.get_user_posts(a).len(), 1);
    assert_eq!(c.delete_post(77, a).unwrap_err(), ContractError::NotFound);
}

#[test]
fn delete_removes_comments() {
    let mut c = PostContract::new();
    let a = Address::new(1);
    let p1 = c.create_post(a, text("p1"), tag_list(&[]), 0).unwrap();
    let p2 = c.create_post(a, text("p2"), tag_list(&[]), 0).unwrap();
    c.add_comment(p1.id, a, text("on p1"), false).unwrap();
    c.add_comment(p2.id, a, text("on p2"), false).unwrap();
    c.delete_post(p1.id, a).unwrap();
    assert!(c.get_post_comments(p1.id).is_empty());
    assert_eq!(c.get_post_comments(p2.id).len(), 1);
}

#[test]
fn comment_on_missing_post_is_not_found() {
    let mut c = PostContract::new();
    let a = Address::new(1);
    let p = c.create_post(a, text("p"), tag_list(&[]), 0).unwrap();
    let r = c.add_comment(p.id + 1, a, text("lost"), false);
    assert_eq!(r.unwrap_err(), ContractError::NotFound);
    assert!(c.get_post_comments(p.id + 1).is_empty());
    assert_eq!(c.get_post(p.id).unwrap().comments, 0);
}

#[test]
fn empty_comment_is_invalid() {
    let mut c = PostContract::new();
    let a = Address::new(1);
    let p = c.create_post(a, text("p"), tag_list(&[]), 0).unwrap();
    assert_eq!(c.add_comment(p.id, a, text(""), false).unwrap_err(), ContractError::InvalidInput);
    assert_eq!(c.get_post(p.id).unwrap().comments, 0);
}

#[test]
fn comment_sequences_increase() {
    let mut c = PostContract::new();
    let a = Address::new(1);
    let p1 = c.create_post(a, text("p1"), tag_list(&[]), 0).unwrap();
    let p2 = c.create_post(a, text("p2"), tag_list(&[]), 0).unwrap();
    let c1 = c.add_comment(p1.id, a, text("x"), false).unwrap();
    let c2 = c.add_comment(p2.id, a, text("y"), false).unwrap();
    let c3 = c.add_comment(p1.id, a, text("z"), false).unwrap();
    assert_eq!((c1.sequence, c2.sequence, c3.sequence), (1, 2, 3));
    let seqs: Vec<u64> = c.get_post_comments(p1.id).iter().map(|c| c.sequence).collect();
    assert_eq!(seqs, vec![1, 3]);
}

#[test]
fn likers_follow_likes_and_unlikes() {
    let mut c = PostContract::new();
    let a = Address::new(1);
    let b = Address::new(2);
    let p = c.create_post(a, text("p"), tag_list(&[]), 0).unwrap();
    assert!(p.likers.is_empty());
    c.like_post(p.id, a).unwrap();
    c.like_post(p.id, b).unwrap();
    c.like_post(p.id, a).unwrap();
    c.like_post(p.id, b).unwrap();
    let after = c.unlike_post(p.id, a).unwrap();
    assert_eq!(after.likers, vec![a, b, b]);
    let after = c.unlike_post(p.id, Address::new(3)).unwrap();
    assert_eq!(after.likers, vec![a, b]);
    assert_eq!(after.likes, 2);
    assert_eq!(c.get_post(p.id).unwrap().likers, vec![a, b]);
}

#[test]
fn likes_minus_unlikes_floor_at_zero() {
    let mut c = PostContract::new();
    let a = Address::new(1);
    let p = c.create_post(a, text("p"), tag_list(&[]), 0).unwrap();
    for i in 0..5 {
        c.like_post(p.id, Address::new(i % 2)).unwrap();
    }
    for i in 0..2 {
        c.unlike_post(p.id, Address::new(7 + i)).unwrap();
    }
    assert_eq!(c.get_post(p.id).unwrap().likes, 3);
    for _ in 0..5 {
        c.unlike_post(p.id, a).unwrap();
    }
    assert_eq!(c.get_post(p.id).unwrap().likes, 0);
    assert!(c.get_post(p.id).unwrap().likers.is_empty());
}
