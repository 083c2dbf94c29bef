use slix::api::{
    me_from, needs_reconnect, replies_from, timeline_query, tweets_endpoint, users_me_endpoint,
    ApiError, Tweet, User,
};

#[test]
fn users_me_returns_handle_with_at_prefix() {
    let me = me_from("1".into(), "slickroot");
    assert_eq!(me.handle, "@slickroot");
    assert_eq!(me.id, "1");
}

#[test]
fn endpoints_sit_under_the_base_url() {
    assert_eq!(users_me_endpoint("https://api.x.com/2/"), "https://api.x.com/2/users/me");
    assert_eq!(tweets_endpoint("https://api.x.com/2", "9"), "https://api.x.com/2/users/9/tweets");
}

#[test]
fn unauthorized_and_forbidden_ask_for_reconnect() {
    assert!(needs_reconnect(401));
    assert!(needs_reconnect(403));
    assert!(!needs_reconnect(200));
    assert!(!needs_reconnect(500));
}

fn tweet(id: &str, types: &[&str], to: Option<&str>) -> Tweet {
    Tweet {
        id: id.into(),
        created_at: 1_000_000_000,
        text: "hello there".into(),
        impressions: 12,
        likes: 3,
        profile_visits: 4,
        referenced_types: types.iter().map(|t| t.to_string()).collect(),
        in_reply_to_user_id: to.map(String::from),
    }
}

#[test]
fn only_replies_are_kept_with_the_replied_to_handle() {
    let users = vec![User { id: "9".into(), username: "bob".into() }];
    let tweets = vec![
        tweet("1", &[], None),
        tweet("7", &["replied_to"], Some("9")),
        tweet("8", &["quoted"], Some("9")),
    ];
    let replies = replies_from(&tweets, &users).ok().unwrap();
    assert_eq!(replies.len(), 1);
    assert_eq!(replies[0].id, "7");
    assert_eq!(replies[0].to_username, "bob");
    assert_eq!(replies[0].impressions, 12);
    assert_eq!(replies[0].likes, 3);
    assert_eq!(replies[0].profile_visits, 4);
}

#[test]
fn a_reply_to_an_unknown_account_is_a_protocol_error() {
    let tweets = vec![tweet("7", &["replied_to"], Some("9"))];
    assert!(matches!(replies_from(&tweets, &[]), Err(ApiError::Protocol(_))));
}

#[test]
fn timeline_query_asks_for_the_latest_hundred_posts_with_their_metrics() {
    assert_eq!(
        timeline_query(),
        vec![
            ("max_results", "100"),
            ("exclude", "retweets"),
            (
                "tweet.fields",
                "created_at,public_metrics,non_public_metrics,referenced_tweets,in_reply_to_user_id",
            ),
            ("expansions", "in_reply_to_user_id"),
        ]
    );
}
