//! What the X API hands back: the signed-in account and the replies it made.
use vstd::prelude::*;

use crate::oauth::{endpoint, param_views};
use crate::text::trim_slashes;

verus! {

/// One reply made by the signed-in account, with the numbers X reports for it.
#[derive(Debug)]
pub struct Reply {
    pub id: String,
    /// When the reply was posted, in nanoseconds since 1970-01-01T00:00:00Z.
    pub created_at: i128,
    pub text: String,
    /// The handle of the account replied to, without the `@`.
    pub to_username: String,
    pub impressions: u64,
    pub likes: u64,
    pub profile_visits: u64,
}

/// The signed-in account.
#[derive(Debug)]
pub struct Me {
    pub id: String,
    /// The handle with its `@`.
    pub handle: String,
}

/// Why a call to the API failed.
#[derive(Debug)]
pub enum ApiError {
    /// The stored tokens are no longer accepted; the account must be connected again.
    NeedsReconnect,
    Http(reqwest::Error),
    Protocol(String),
}

/// The endpoint of the signed-in account under the API base URL.
pub fn users_me_endpoint(base_url: &str) -> (url: String)
    ensures
        url@ == endpoint(base_url@, "/users/me"@),
{
    let mut url = trim_slashes(base_url);
    url.append("/users/me");
    url
}

/// The endpoint of an account's posts under the API base URL.
pub fn tweets_endpoint(base_url: &str, user_id: &str) -> (url: String)
    ensures
        url@ == endpoint(base_url@, "/users/"@) + user_id@ + "/tweets"@,
{
    let mut url = trim_slashes(base_url);
    url.append("/users/");
    url.append(user_id);
    url.append("/tweets");
    url
}

/// The query of the timeline request: at most the latest 100 posts, without
/// retweets, with the fields the report reads, and the accounts replied to
/// expanded into the answer.
pub fn timeline_query() -> (query: Vec<(&'static str, &'static str)>)
    ensures
        param_views(query@) == seq![
            ("max_results"@, "100"@),
            ("exclude"@, "retweets"@),
            (
                "tweet.fields"@,
                "created_at,public_metrics,non_public_metrics,referenced_tweets,in_reply_to_user_id"@,
            ),
            ("expansions"@, "in_reply_to_user_id"@),
        ],
{
    let mut query: Vec<(&'static str, &'static str)> = Vec::new();
    query.push(("max_results", "100"));
    query.push(("exclude", "retweets"));
    query.push(
        (
            "tweet.fields",
            "created_at,public_metrics,non_public_metrics,referenced_tweets,in_reply_to_user_id",
        ),
    );
    query.push(("expansions", "in_reply_to_user_id"));
    proof {
        assert(param_views(query@) =~= seq![
            ("max_results"@, "100"@),
            ("exclude"@, "retweets"@),
            (
                "tweet.fields"@,
                "created_at,public_metrics,non_public_metrics,referenced_tweets,in_reply_to_user_id"@,
            ),
            ("expansions"@, "in_reply_to_user_id"@),
        ]);
    }
    query
}

/// The handle of a username: `@` and the name.
pub open spec fn handle_of(username: Seq<char>) -> Seq<char> {
    "@"@ + username
}

/// The signed-in account from the id and username that `users/me` gives.
pub fn me_from(id: String, username: &str) -> (me: Me)
    ensures
        me.id == id,
        me.handle@ == handle_of(username@),
{
    let mut handle = String::from_str("@");
    handle.append(username);
    Me { id, handle }
}

/// An answer with this HTTP status means the stored tokens are no longer accepted.
pub open spec fn rejects_tokens(status: u16) -> bool {
    status == 401 || status == 403
}

/// Whether a response status asks for the account to be connected again.
pub fn needs_reconnect(status: u16) -> (reconnect: bool)
    ensures
        reconnect == rejects_tokens(status),
{
    status == 401 || status == 403
}

/// A post of the signed-in account as the timeline gives it.
pub struct Tweet {
    pub id: String,
    pub created_at: i128,
    pub text: String,
    pub impressions: u64,
    pub likes: u64,
    pub profile_visits: u64,
    /// The `type` of each of its referenced posts.
    pub referenced_types: Vec<String>,
    pub in_reply_to_user_id: Option<String>,
}

/// An account the timeline's `includes` names.
pub struct User {
    pub id: String,
    pub username: String,
}

/// A post is a reply when one of the posts it references is `replied_to`.
pub open spec fn is_reply(t: Tweet) -> bool {
    exists|i: int| 0 <= i < t.referenced_types@.len() && t.referenced_types@[i]@ == "replied_to"@
}

/// The first named account with the given id.
pub open spec fn user_named(users: Seq<User>, id: Seq<char>) -> Option<User>
    decreases users.len(),
{
    if users.len() == 0 {
        None
    } else {
        match user_named(users.drop_last(), id) {
            Some(u) => Some(u),
            None => if users.last().id@ == id {
                Some(users.last())
            } else {
                None
            },
        }
    }
}

/// The account a post replies to.
pub open spec fn replied_to_user(t: Tweet, users: Seq<User>) -> Option<User> {
    match t.in_reply_to_user_id {
        Some(id) => user_named(users, id@),
        None => None,
    }
}

/// The reply a post stands for, to the given account.
pub open spec fn reply_of(t: Tweet, u: User) -> Reply {
    Reply {
        id: t.id,
        created_at: t.created_at,
        text: t.text,
        to_username: u.username,
        impressions: t.impressions,
        likes: t.likes,
        profile_visits: t.profile_visits,
    }
}

/// The replies among the posts, in order; none when a reply's account is not
/// among the named ones.
pub open spec fn timeline_replies(tweets: Seq<Tweet>, users: Seq<User>) -> Option<Seq<Reply>>
    decreases tweets.len(),
{
    if tweets.len() == 0 {
        Some(Seq::empty())
    } else {
        match timeline_replies(tweets.drop_last(), users) {
            None => None,
            Some(before) => {
                let t = tweets.last();
                if is_reply(t) {
                    match replied_to_user(t, users) {
                        Some(u) => Some(before.push(reply_of(t, u))),
                        None => None,
                    }
                } else {
                    Some(before)
                }
            },
        }
    }
}

/// The id of the account a post replies to, if it names one.
pub open spec fn reply_target(t: Tweet) -> Option<Seq<char>> {
    match t.in_reply_to_user_id {
        Some(id) => Some(id@),
        None => None,
    }
}

/// The reply stands for one of the posts, a reply, and goes to a named account
/// whose id is the one that post replies to.
pub open spec fn answers(r: Reply, tweets: Seq<Tweet>, users: Seq<User>) -> bool {
    exists|i: int, j: int|
        #![trigger tweets[i], users[j]]
        0 <= i < tweets.len() && 0 <= j < users.len() && is_reply(tweets[i]) && reply_target(
            tweets[i],
        ) == Some(users[j].id@) && r.id == tweets[i].id && r.to_username == users[j].username
}

/// Looking an account up by id gives one of the named accounts, with that id, and
/// gives none only when no named account has that id.
pub proof fn user_lookup_matches_the_id(users: Seq<User>, id: Seq<char>)
    ensures
        user_named(users, id) matches Some(u) ==> u.id@ == id && exists|j: int|
            0 <= j < users.len() && users[j] == u,
        user_named(users, id) is None <==> forall|j: int|
            0 <= j < users.len() ==> (#[trigger] users[j]).id@ != id,
    decreases users.len(),
{
    if users.len() > 0 {
        let before = users.drop_last();
        user_lookup_matches_the_id(before, id);
        match user_named(before, id) {
            Some(u) => {
                let j = choose|j: int| 0 <= j < before.len() && before[j] == u;
                assert(users[j] == u);
            },
            None => {
                if users.last().id@ == id {
                    assert(users[users.len() - 1] == users.last());
                } else {
                    assert forall|j: int| 0 <= j < users.len() implies (#[trigger] users[j]).id@
                        != id by {
                        if j < users.len() - 1 {
                            assert(before[j] == users[j]);
                        }
                    }
                }
            },
        }
        if user_named(users, id) is None {
            assert forall|j: int| 0 <= j < users.len() implies (#[trigger] users[j]).id@ != id by {
                if j < users.len() - 1 {
                    assert(before[j] == users[j]);
                }
            }
        }
    }
}

/// Each reply taken from the timeline goes to the account its post replies to:
/// it stands for a post that is a reply, and its handle is the username of the
/// named account whose id is that post's `in_reply_to_user_id`.
pub proof fn replies_go_to_the_replied_account(tweets: Seq<Tweet>, users: Seq<User>)
    ensures
        timeline_replies(tweets, users) matches Some(rs) ==> forall|k: int|
            0 <= k < rs.len() ==> answers(#[trigger] rs[k], tweets, users),
    decreases tweets.len(),
{
    if tweets.len() > 0 {
        let before = tweets.drop_last();
        replies_go_to_the_replied_account(before, users);
        if let Some(rs) = timeline_replies(tweets, users) {
            let prev = timeline_replies(before, users)->0;
            assert forall|k: int| 0 <= k < rs.len() implies answers(#[trigger] rs[k], tweets, users) by {
                if k < prev.len() {
                    assert(rs[k] == prev[k]);
                    assert(answers(prev[k], before, users));
                    let (i, j) = choose|i: int, j: int|
                        #![trigger before[i], users[j]]
                        0 <= i < before.len() && 0 <= j < users.len() && is_reply(before[i])
                            && reply_target(before[i]) == Some(users[j].id@) && prev[k].id
                            == before[i].id && prev[k].to_username == users[j].username;
                    assert(tweets[i] == before[i]);
                } else {
                    let t = tweets.last();
                    let id = t.in_reply_to_user_id->0;
                    user_lookup_matches_the_id(users, id@);
                    let u = user_named(users, id@)->0;
                    let j = choose|j: int| 0 <= j < users.len() && users[j] == u;
                    assert(tweets[tweets.len() - 1] == t);
                    assert(rs[k] == reply_of(t, u));
                    assert(reply_target(tweets[tweets.len() - 1]) == Some(users[j].id@));
                }
            }
        }
    }
}

fn has_replied_to(types: &Vec<String>) -> (found: bool)
    ensures
        found == exists|i: int| 0 <= i < types@.len() && types@[i]@ == "replied_to"@,
{
    let wanted = String::from_str("replied_to");
    for i in 0..types.len()
        invariant
            wanted@ == "replied_to"@,
            forall|j: int| 0 <= j < i ==> types@[j]@ != "replied_to"@,
    {
        if types[i] == wanted {
            return true;
        }
    }
    false
}

fn find_user(users: &[User], id: &String) -> (found: Option<usize>)
    ensures
        match found {
            Some(j) => j < users@.len() && user_named(users@, id@) == Some(users@[j as int]),
            None => user_named(users@, id@) is None,
        },
{
    let mut j: usize = 0;
    while j < users.len()
        invariant
            j <= users@.len(),
            user_named(users@.take(j as int), id@) is None,
        decreases users@.len() - j,
    {
        proof {
            assert(users@.take(j + 1).drop_last() =~= users@.take(j as int));
        }
        if users[j].id == *id {
            proof {
                lemma_user_named_prefix(users@, j + 1, id@);
            }
            return Some(j);
        }
        j = j + 1;
    }
    proof {
        assert(users@.take(users@.len() as int) =~= users@);
    }
    None
}

proof fn lemma_user_named_prefix(users: Seq<User>, n: int, id: Seq<char>)
    requires
        0 <= n <= users.len(),
        user_named(users.take(n), id) is Some,
    ensures
        user_named(users, id) == user_named(users.take(n), id),
    decreases users.len(),
{
    if n < users.len() {
        assert(users.drop_last().take(n) =~= users.take(n));
        lemma_user_named_prefix(users.drop_last(), n, id);
    } else {
        assert(users.take(n) =~= users);
    }
}

/// The replies among the timeline's posts, each with the handle of the account it
/// replies to; a protocol error when that account is not among the named ones.
pub fn replies_from(tweets: &[Tweet], users: &[User]) -> (replies: Result<Vec<Reply>, ApiError>)
    ensures
        match timeline_replies(tweets@, users@) {
            Some(rs) => replies matches Ok(v) && v@ == rs,
            None => replies matches Err(ApiError::Protocol(m)) && m@
                == "reply to an account missing from includes"@,
        },
{
    let mut replies: Vec<Reply> = Vec::new();
    for i in 0..tweets.len()
        invariant
            timeline_replies(tweets@.take(i as int), users@) == Some(replies@),
    {
        let t = &tweets[i];
        proof {
            assert(tweets@.take(i + 1).drop_last() =~= tweets@.take(i as int));
            assert(tweets@.take(i + 1).last() == *t);
        }
        if has_replied_to(&t.referenced_types) {
            let user = match &t.in_reply_to_user_id {
                Some(id) => find_user(users, id),
                None => None,
            };
            match user {
                Some(j) => {
                    let u = &users[j];
                    replies.push(
                        Reply {
                            id: t.id.clone(),
                            created_at: t.created_at,
                            text: t.text.clone(),
                            to_username: u.username.clone(),
                            impressions: t.impressions,
                            likes: t.likes,
                            profile_visits: t.profile_visits,
                        },
                    );
                },
                None => {
                    proof {
                        lemma_timeline_stays_none(tweets@, i + 1, users@);
                    }
                    return Err(ApiError::Protocol(String::from_str("reply to an account missing from includes")));
                },
            }
        }
    }
    proof {
        assert(tweets@.take(tweets@.len() as int) =~= tweets@);
    }
    Ok(replies)
}

proof fn lemma_timeline_stays_none(tweets: Seq<Tweet>, n: int, users: Seq<User>)
    requires
        0 <= n <= tweets.len(),
        timeline_replies(tweets.take(n), users) is None,
    ensures
        timeline_replies(tweets, users) is None,
    decreases tweets.len(),
{
    if n < tweets.len() {
        assert(tweets.drop_last().take(n) =~= tweets.take(n));
        lemma_timeline_stays_none(tweets.drop_last(), n, users);
    } else {
        assert(tweets.take(n) =~= tweets);
    }
}

} // verus!
